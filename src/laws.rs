//! Laws that relate the parser and the collector across inputs and calls.
use vstd::prelude::*;
use crate::collect::{add_all, add_texts, all_lines, declared, declared_specs, is_blank, lines_of};
use crate::manifest::{manifest_specs, ManifestError, TomlData};
use crate::specifier::{operator, parse, pick_from, split_around, fallback_suffix, OPERATOR_COUNT};
use crate::text::{find, find_from, is_space, occurs_at, trim, trim_end, trim_start};

verus! {

/// A direct reference is split on its first `@`, whatever other operators the
/// text holds.
pub proof fn lemma_at_sign_first(s: Seq<char>, i: int)
    requires
        find(s, seq!['@']) == Some(i),
    ensures
        parse(s) == split_around(s, i, 1),
{
    assert(operator(0) =~= seq!['@']);
}

/// If `find_from` starts at or before the only occurrence, it finds it.
proof fn lemma_find_from_unique(s: Seq<char>, p: Seq<char>, i: int, j: int)
    requires
        0 <= i <= j,
        occurs_at(s, p, j),
        forall|t: int| i <= t < j ==> !occurs_at(s, p, t),
    ensures
        find_from(s, p, i) == Some(j),
    decreases j - i,
{
    if i < j {
        lemma_find_from_unique(s, p, i + 1, j);
    }
}

/// The search from `i` on finds nothing where `p` occurs nowhere.
proof fn lemma_find_from_none(s: Seq<char>, p: Seq<char>, i: int)
    requires
        forall|t: int| !occurs_at(s, p, t),
    ensures
        find_from(s, p, i) is None,
    decreases s.len() + 1 - i,
{
    if !(i < 0 || i + p.len() > s.len()) {
        lemma_find_from_none(s, p, i + 1);
    }
}

/// Operators of higher priority that are absent are passed over.
proof fn lemma_pick_skips(s: Seq<char>, j: int, k: int)
    requires
        0 <= j <= k < OPERATOR_COUNT,
        forall|t: int| 0 <= t < k ==> find(s, operator(t)) is None,
    ensures
        pick_from(s, j) == pick_from(s, k),
    decreases k - j,
{
    if j < k {
        lemma_pick_skips(s, j + 1, k);
    }
}

/// A specifier that holds its operator once, and no operator of higher
/// priority, is split at that operator: the name is the trimmed text before it
/// and the constraint the trimmed text after it.
pub proof fn lemma_single_operator(s: Seq<char>, k: int, i: int)
    requires
        0 <= k < OPERATOR_COUNT,
        occurs_at(s, operator(k), i),
        forall|j: int| occurs_at(s, operator(k), j) ==> j == i,
        forall|h: int, j: int| 0 <= h < k ==> !occurs_at(s, operator(h), j),
    ensures
        parse(s) == (trim(s.subrange(0, i)), trim(s.subrange(i + operator(k).len(), s.len() as int))),
{
    assert forall|h: int| 0 <= h < k implies find(s, operator(h)) is None by {
        lemma_find_from_none(s, operator(h), 0);
    }
    lemma_pick_skips(s, 0, k);
    lemma_find_from_unique(s, operator(k), 0, i);
}

/// A specifier with no operator, that does not end in `=`, is a name alone:
/// the trimmed text, with an empty constraint.
pub proof fn lemma_no_operator(s: Seq<char>)
    requires
        forall|k: int, j: int| 0 <= k < OPERATOR_COUNT ==> !occurs_at(s, operator(k), j),
        s.len() == 0 || s.last() != '=',
    ensures
        parse(s) == (trim(s), Seq::<char>::empty()),
{
    assert forall|h: int| 0 <= h < OPERATOR_COUNT implies find(s, operator(h)) is None by {
        lemma_find_from_none(s, operator(h), 0);
    }
    lemma_pick_none(s, 0);
    let t = s + fallback_suffix();
    let p = operator(1);
    assert(p =~= seq!['=', '=']);
    let n = s.len() as int;
    assert(t.subrange(n, n + 2) =~= p);
    assert forall|j: int| 0 <= j < n implies !occurs_at(t, p, j) by {
        if occurs_at(t, p, j) {
            if j + 2 <= n {
                assert(s.subrange(j, j + 2) =~= t.subrange(j, j + 2));
                assert(occurs_at(s, operator(1), j));
            } else {
                assert(t.subrange(j, j + 2)[0] == s.last());
            }
        }
    }
    lemma_find_from_unique(t, p, 0, n);
    assert(t.subrange(0, n) =~= s);
    let rest = t.subrange(n + 2, t.len() as int);
    assert(rest =~= seq![' ']);
    assert(rest[0] == ' ');
    assert(is_space(rest[0]));
    assert(rest.drop_first() =~= Seq::<char>::empty());
    assert(trim_start(Seq::<char>::empty()) == Seq::<char>::empty());
    assert(trim_start(rest) == trim_start(rest.drop_first()));
    assert(trim_start(rest) =~= Seq::<char>::empty());
    assert(trim_end(Seq::<char>::empty()) =~= Seq::<char>::empty());
}

proof fn lemma_pick_none(s: Seq<char>, k: int)
    requires
        0 <= k <= OPERATOR_COUNT,
        forall|h: int| 0 <= h < OPERATOR_COUNT ==> find(s, operator(h)) is None,
    ensures
        pick_from(s, k) is None,
    decreases OPERATOR_COUNT - k,
{
    if k < OPERATOR_COUNT {
        lemma_pick_none(s, k + 1);
    }
}

/// Adding specifiers to a mapping overrides it with what they declare on their own.
pub proof fn lemma_add_all_overrides(m: Map<Seq<char>, Seq<char>>, specs: Seq<Seq<char>>)
    ensures
        add_all(m, specs) == m.union_prefer_right(add_all(Map::empty(), specs)),
    decreases specs.len(),
{
    if specs.len() > 0 {
        lemma_add_all_overrides(m, specs.drop_last());
    }
    assert(add_all(m, specs) =~= m.union_prefer_right(add_all(Map::empty(), specs)));
}

/// When two sources declare the same name, the mapping holds the constraint of
/// the source collected last.
pub proof fn lemma_later_source_wins(
    m: Map<Seq<char>, Seq<char>>,
    first: Seq<Seq<char>>,
    second: Seq<Seq<char>>,
    name: Seq<char>,
)
    requires
        add_all(Map::empty(), first).contains_key(name),
        add_all(Map::empty(), second).contains_key(name),
    ensures
        add_all(add_all(m, first), second).contains_key(name),
        add_all(add_all(m, first), second)[name] == add_all(Map::empty(), second)[name],
{
    lemma_add_all_overrides(add_all(m, first), second);
}

/// Collecting the same specifiers again into the mapping they built changes
/// nothing: collection is idempotent.
pub proof fn lemma_collect_idempotent(m: Map<Seq<char>, Seq<char>>, specs: Seq<Seq<char>>)
    ensures
        add_all(add_all(m, specs), specs) == add_all(m, specs),
{
    let once = add_all(Map::empty(), specs);
    lemma_add_all_overrides(m, specs);
    lemma_add_all_overrides(add_all(m, specs), specs);
    assert(m.union_prefer_right(once).union_prefer_right(once) =~= m.union_prefer_right(once));
}

/// Adding two runs of specifiers one after the other is adding their concatenation.
pub proof fn lemma_add_all_concat(
    m: Map<Seq<char>, Seq<char>>,
    x: Seq<Seq<char>>,
    y: Seq<Seq<char>>,
)
    ensures
        add_all(m, x + y) == add_all(add_all(m, x), y),
    decreases y.len(),
{
    if y.len() == 0 {
        assert(x + y =~= x);
    } else {
        assert((x + y).drop_last() =~= x + y.drop_last());
        assert((x + y).last() == y.last());
        lemma_add_all_concat(m, x, y.drop_last());
    }
}

/// Adding texts is adding all their lines, text after text.
pub proof fn lemma_add_texts_lines(m: Map<Seq<char>, Seq<char>>, texts: Seq<Seq<char>>)
    ensures
        add_texts(m, texts) == add_all(m, all_lines(texts)),
    decreases texts.len(),
{
    if texts.len() > 0 {
        lemma_add_texts_lines(m, texts.drop_last());
        lemma_add_all_concat(m, all_lines(texts.drop_last()), lines_of(texts.last()));
    }
}

/// The constraint a name ends with is the one of its last non-blank specifier:
/// a later specifier silently overwrites an earlier one.
pub proof fn lemma_last_occurrence_wins(m: Map<Seq<char>, Seq<char>>, specs: Seq<Seq<char>>, i: int)
    requires
        0 <= i < specs.len(),
        !is_blank(specs[i]),
        forall|j: int| i < j < specs.len() && !is_blank(specs[j]) ==> parse(specs[j]).0 != parse(specs[i]).0,
    ensures
        add_all(m, specs).contains_key(parse(specs[i]).0),
        add_all(m, specs)[parse(specs[i]).0] == parse(specs[i]).1,
    decreases specs.len(),
{
    if i < specs.len() - 1 {
        let p = specs.drop_last();
        assert(p[i] == specs[i]);
        assert forall|j: int| i < j < p.len() && !is_blank(p[j]) implies parse(p[j]).0 != parse(p[i]).0 by {
            assert(p[j] == specs[j]);
        }
        lemma_last_occurrence_wins(m, p, i);
        assert(specs.last() == specs[specs.len() - 1]);
    }
}

/// Across all sources of the declared collection (the requirement files in
/// order, then the manifest), a name maps to the constraint of its last
/// non-blank specifier.
pub proof fn lemma_declared_last_occurrence(
    requirements: Seq<Seq<char>>,
    doc: Option<Seq<(Seq<char>, TomlData)>>,
    specs: Seq<Seq<char>>,
    i: int,
)
    requires
        declared_specs(requirements, doc) == Ok::<Seq<Seq<char>>, ManifestError>(specs),
        0 <= i < specs.len(),
        !is_blank(specs[i]),
        forall|j: int| i < j < specs.len() && !is_blank(specs[j]) ==> parse(specs[j]).0 != parse(specs[i]).0,
    ensures
        declared(requirements, doc) == Ok::<Map<Seq<char>, Seq<char>>, ManifestError>(add_all(Map::empty(), specs)),
        add_all(Map::empty(), specs).contains_key(parse(specs[i]).0),
        add_all(Map::empty(), specs)[parse(specs[i]).0] == parse(specs[i]).1,
{
    lemma_add_texts_lines(Map::empty(), requirements);
    match doc {
        None => {},
        Some(d) => {
            let rest = manifest_specs(d)->Ok_0;
            assert(specs == all_lines(requirements) + rest);
            lemma_add_all_concat(Map::empty(), all_lines(requirements), rest);
        },
    }
    lemma_last_occurrence_wins(Map::empty(), specs, i);
}

} // verus!
