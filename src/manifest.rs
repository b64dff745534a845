//! The project manifest: a TOML tree, and the dependency specifiers that its
//! `project` table declares.
use vstd::prelude::*;
use vstd::string::*;

verus! {

/// A TOML value as plain data: the shapes the manifest logic tells apart.
pub enum TomlData {
    Text(Seq<char>),
    Array(Seq<TomlData>),
    Table(Seq<(Seq<char>, TomlData)>),
    Other,
}

/// A TOML value: a string, an array, a table of keyed entries, or anything else.
#[derive(Debug)]
pub enum TomlValue {
    Text(String),
    Array(Vec<TomlValue>),
    Table(Vec<TomlEntry>),
    Other,
}

/// One key of a TOML table with its value.
#[derive(Debug)]
pub struct TomlEntry {
    pub key: String,
    pub value: TomlValue,
}

impl TomlValue {
    pub open spec fn view(&self) -> TomlData
        decreases self,
    {
        match self {
            TomlValue::Text(s) => TomlData::Text(s@),
            TomlValue::Array(items) => TomlData::Array(
                Seq::new(
                    items@.len(),
                    |i: int|
                        if 0 <= i < items@.len() {
                            items[i].view()
                        } else {
                            TomlData::Other
                        },
                ),
            ),
            TomlValue::Table(es) => TomlData::Table(
                Seq::new(
                    es@.len(),
                    |i: int|
                        if 0 <= i < es@.len() {
                            (es[i].key@, es[i].value.view())
                        } else {
                            (Seq::empty(), TomlData::Other)
                        },
                ),
            ),
            TomlValue::Other => TomlData::Other,
        }
    }
}

/// The entries of a table as plain data.
pub open spec fn entries_view(es: Seq<TomlEntry>) -> Seq<(Seq<char>, TomlData)> {
    Seq::new(es.len(), |i: int| (es[i].key@, es[i].value@))
}

/// The items of an array as plain data.
pub open spec fn items_view(items: Seq<TomlValue>) -> Seq<TomlData> {
    Seq::new(items.len(), |i: int| items[i]@)
}

/// What `toml` parses a document into: `None` where the text is not valid TOML,
/// else the entries of its root table.
pub uninterp spec fn toml_document(text: Seq<char>) -> Option<Seq<(Seq<char>, TomlData)>>;

#[verifier::external_type_specification]
#[verifier::external_body]
pub struct ExTomlValue(toml::Value);

#[verifier::external_type_specification]
#[verifier::external_body]
#[verifier::reject_recursive_types(K)]
#[verifier::reject_recursive_types(V)]
pub struct ExTomlMap<K, V>(toml::map::Map<K, V>);

/// Relies on toml's `FromStr` for `toml::Table` (`toml::from_str`): it fails on
/// text that is not a TOML document, and otherwise gives a tree that depends on
/// the text alone.
#[verifier::external_body]
pub(crate) fn parse_toml(text: &str) -> (r: Option<Vec<TomlEntry>>)
    ensures
        r matches Some(es) ==> toml_document(text@) == Some(entries_view(es@)),
        r is None ==> toml_document(text@) is None,
{
    text.parse::<toml::Table>().ok().map(entries_of)
}

/// Relies on `IntoIterator` for `toml::map::Map`: it yields each key with its
/// value, once each. Converts them into entries, one for one, in that order.
#[verifier::external_body]
fn entries_of(t: toml::Table) -> Vec<TomlEntry> {
    t.into_iter().map(|(key, v)| TomlEntry { key, value: value_of(v) }).collect()
}

/// Relies on the variants of `toml::Value`: strings, arrays and tables are
/// converted one for one, every other variant into `TomlValue::Other`.
#[verifier::external_body]
fn value_of(v: toml::Value) -> TomlValue {
    match v {
        toml::Value::String(s) => TomlValue::Text(s),
        toml::Value::Array(a) => TomlValue::Array(a.into_iter().map(value_of).collect()),
        toml::Value::Table(t) => TomlValue::Table(entries_of(t)),
        _ => TomlValue::Other,
    }
}

/// Why the declared dependencies of a manifest cannot be read.
#[derive(Clone, Copy, Debug, PartialEq, Eq, Structural)]
pub enum ManifestError {
    /// `project` is present but is not a table.
    InvalidProjectTable,
    /// `project.dependencies` is present but is not an array.
    InvalidDependenciesArray,
    /// `project.optional-dependencies` is present but is not a table of arrays of strings.
    InvalidOptionalDependenciesTable,
}

pub open spec fn project_key() -> Seq<char> {
    seq!['p', 'r', 'o', 'j', 'e', 'c', 't']
}

pub open spec fn dependencies_key() -> Seq<char> {
    seq!['d', 'e', 'p', 'e', 'n', 'd', 'e', 'n', 'c', 'i', 'e', 's']
}

pub open spec fn optional_dependencies_key() -> Seq<char> {
    seq!['o', 'p', 't', 'i', 'o', 'n', 'a', 'l', '-'] + dependencies_key()
}

/// The value of the first entry of `es` whose key is `k`.
pub open spec fn lookup(es: Seq<(Seq<char>, TomlData)>, k: Seq<char>) -> Option<TomlData>
    decreases es.len(),
{
    if es.len() == 0 {
        None
    } else if es[0].0 == k {
        Some(es[0].1)
    } else {
        lookup(es.drop_first(), k)
    }
}

/// The strings among `items`, in order; other items are passed over.
pub open spec fn texts(items: Seq<TomlData>) -> Seq<Seq<char>>
    decreases items.len(),
{
    if items.len() == 0 {
        seq![]
    } else {
        texts(items.drop_last()) + match items.last() {
            TomlData::Text(s) => seq![s],
            _ => seq![],
        }
    }
}

/// Whether every item of `items` is a string.
pub open spec fn all_texts(items: Seq<TomlData>) -> bool {
    forall|i: int| 0 <= i < items.len() ==> items[i] is Text
}

/// The strings of every group, group after group; `None` where a group is not
/// an array of strings.
pub open spec fn group_texts(groups: Seq<(Seq<char>, TomlData)>) -> Option<Seq<Seq<char>>>
    decreases groups.len(),
{
    if groups.len() == 0 {
        Some(seq![])
    } else {
        match group_texts(groups.drop_last()) {
            None => None,
            Some(acc) => match groups.last().1 {
                TomlData::Array(items) => if all_texts(items) {
                    Some(acc + texts(items))
                } else {
                    None
                },
                _ => None,
            },
        }
    }
}

/// The specifiers declared in `project.dependencies`.
pub open spec fn required_specs(project: Seq<(Seq<char>, TomlData)>) -> Result<
    Seq<Seq<char>>,
    ManifestError,
> {
    match lookup(project, dependencies_key()) {
        None => Ok(seq![]),
        Some(TomlData::Array(items)) => Ok(texts(items)),
        Some(_) => Err(ManifestError::InvalidDependenciesArray),
    }
}

/// The specifiers declared in the groups of `project.optional-dependencies`,
/// each group an array of strings.
pub open spec fn optional_specs(project: Seq<(Seq<char>, TomlData)>) -> Result<
    Seq<Seq<char>>,
    ManifestError,
> {
    match lookup(project, optional_dependencies_key()) {
        None => Ok(seq![]),
        Some(TomlData::Table(groups)) => match group_texts(groups) {
            Some(s) => Ok(s),
            None => Err(ManifestError::InvalidOptionalDependenciesTable),
        },
        Some(_) => Err(ManifestError::InvalidOptionalDependenciesTable),
    }
}

/// The specifiers that a manifest declares: those of `project.dependencies`,
/// then those of each group of `project.optional-dependencies`. A manifest
/// without a `project` table declares none.
pub open spec fn manifest_specs(doc: Seq<(Seq<char>, TomlData)>) -> Result<
    Seq<Seq<char>>,
    ManifestError,
> {
    match lookup(doc, project_key()) {
        None => Ok(seq![]),
        Some(TomlData::Table(project)) => match required_specs(project) {
            Err(e) => Err(e),
            Ok(d) => match optional_specs(project) {
                Err(e) => Err(e),
                Ok(o) => Ok(d + o),
            },
        },
        Some(_) => Err(ManifestError::InvalidProjectTable),
    }
}

/// The views of a list of strings.
pub open spec fn strings_view(v: Seq<String>) -> Seq<Seq<char>> {
    v.map_values(|s: String| s@)
}

proof fn lemma_table_view(v: &TomlValue)
    ensures
        v matches TomlValue::Table(es) ==> v@ == TomlData::Table(entries_view(es@)),
        v matches TomlValue::Array(items) ==> v@ == TomlData::Array(items_view(items@)),
{
    match v {
        TomlValue::Table(es) => {
            assert(v@->Table_0 =~= entries_view(es@));
        },
        TomlValue::Array(items) => {
            assert(v@->Array_0 =~= items_view(items@));
        },
        _ => {},
    }
}

/// The value of the first entry of `es` whose key is `key`.
fn lookup_entry<'a>(es: &'a Vec<TomlEntry>, key: &String) -> (r: Option<&'a TomlValue>)
    ensures
        r matches Some(v) ==> lookup(entries_view(es@), key@) == Some(v@),
        r is None ==> lookup(entries_view(es@), key@) is None,
{
    let mut i: usize = 0;
    assert(entries_view(es@).skip(0) =~= entries_view(es@));
    while i < es.len()
        invariant
            i <= es.len(),
            lookup(entries_view(es@), key@) == lookup(entries_view(es@).skip(i as int), key@),
        decreases es.len() - i,
    {
        let ghost rest = entries_view(es@).skip(i as int);
        assert(rest[0] == (es@[i as int].key@, es@[i as int].value@));
        if es[i].key == *key {
            return Some(&es[i].value);
        }
        assert(rest.drop_first() =~= entries_view(es@).skip(i + 1));
        i = i + 1;
    }
    assert(entries_view(es@).skip(i as int).len() == 0);
    None
}

/// Appends the strings among `items` to `out`.
fn push_texts(out: &mut Vec<String>, items: &Vec<TomlValue>)
    ensures
        strings_view(final(out)@) == strings_view(old(out)@) + texts(items_view(items@)),
{
    let ghost start = strings_view(out@);
    let mut i: usize = 0;
    while i < items.len()
        invariant
            i <= items.len(),
            strings_view(out@) == start + texts(items_view(items@).take(i as int)),
        decreases items.len() - i,
    {
        let ghost before = out@;
        let ghost t = items_view(items@).take(i + 1);
        assert(t.drop_last() =~= items_view(items@).take(i as int));
        assert(t.last() == items@[i as int]@);
        match &items[i] {
            TomlValue::Text(s) => {
                out.push(s.clone());
                assert(strings_view(out@) =~= strings_view(before) + seq![s@]);
            },
            _ => {
                assert(strings_view(out@) =~= strings_view(before));
            },
        }
        assert(strings_view(out@) =~= start + texts(t));
        i = i + 1;
    }
    assert(items_view(items@).take(items.len() as int) =~= items_view(items@));
}

/// Whether every item of `items` is a string.
fn only_texts(items: &Vec<TomlValue>) -> (r: bool)
    ensures
        r == all_texts(items_view(items@)),
{
    let mut i: usize = 0;
    while i < items.len()
        invariant
            i <= items.len(),
            forall|j: int| 0 <= j < i ==> items_view(items@)[j] is Text,
        decreases items.len() - i,
    {
        proof {
            lemma_table_view(&items@[i as int]);
        }
        match &items[i] {
            TomlValue::Text(_) => {},
            _ => {
                assert(!(items_view(items@)[i as int] is Text));
                return false;
            },
        }
        i = i + 1;
    }
    true
}

/// Builds a `String` holding the characters of a literal key.
fn key_string(k: &str) -> (r: String)
    ensures
        r@ == k@,
{
    String::from_str(k)
}

/// The specifiers of every group of `optional-dependencies`, group after group;
/// `None` where a group is not an array.
fn group_specifiers(groups: &Vec<TomlEntry>) -> (r: Option<Vec<String>>)
    ensures
        r matches Some(v) ==> group_texts(entries_view(groups@)) == Some(strings_view(v@)),
        r is None ==> group_texts(entries_view(groups@)) is None,
{
    let mut out: Vec<String> = Vec::new();
    let mut i: usize = 0;
    assert(entries_view(groups@).take(0) =~= Seq::<(Seq<char>, TomlData)>::empty());
    assert(strings_view(out@) =~= Seq::<Seq<char>>::empty());
    while i < groups.len()
        invariant
            i <= groups.len(),
            group_texts(entries_view(groups@).take(i as int)) == Some(strings_view(out@)),
        decreases groups.len() - i,
    {
        let ghost t = entries_view(groups@).take(i + 1);
        assert(t.drop_last() =~= entries_view(groups@).take(i as int));
        proof {
            lemma_table_view(&groups@[i as int].value);
        }
        match &groups[i].value {
            TomlValue::Array(items) => {
                if !only_texts(items) {
                    assert(group_texts(t) is None);
                    proof {
                        lemma_group_texts_none(entries_view(groups@), i + 1);
                    }
                    return None;
                }
                push_texts(&mut out, items);
            },
            _ => {
                assert(group_texts(t) is None);
                proof {
                    lemma_group_texts_none(entries_view(groups@), i + 1);
                }
                return None;
            },
        }
        i = i + 1;
    }
    assert(entries_view(groups@).take(groups.len() as int) =~= entries_view(groups@));
    Some(out)
}

/// Once a group is not an array, no longer prefix has its strings either.
proof fn lemma_group_texts_none(g: Seq<(Seq<char>, TomlData)>, i: int)
    requires
        0 <= i <= g.len(),
        group_texts(g.take(i)) is None,
    ensures
        group_texts(g) is None,
    decreases g.len() - i,
{
    if i < g.len() {
        assert(g.take(i + 1).drop_last() =~= g.take(i));
        lemma_group_texts_none(g, i + 1);
    } else {
        assert(g.take(i) =~= g);
    }
}

/// The dependency specifiers that a parsed manifest declares, in order: those of
/// `project.dependencies`, then those of each group of
/// `project.optional-dependencies`. Entries that are not strings are passed
/// over; a manifest without a `project` table declares none.
pub fn manifest_specifiers(doc: &Vec<TomlEntry>) -> (r: Result<Vec<String>, ManifestError>)
    ensures
        r matches Ok(v) ==> manifest_specs(entries_view(doc@)) == Ok::<Seq<Seq<char>>, ManifestError>(strings_view(v@)),
        r matches Err(e) ==> manifest_specs(entries_view(doc@)) == Err::<Seq<Seq<char>>, ManifestError>(e),
{
    let mut out: Vec<String> = Vec::new();
    proof {
        reveal_strlit("project");
        reveal_strlit("dependencies");
        reveal_strlit("optional-dependencies");
    }
    let project_name = key_string("project");
    assert(project_name@ =~= project_key());
    let project = match lookup_entry(doc, &project_name) {
        None => {
            assert(strings_view(out@) =~= Seq::<Seq<char>>::empty());
            return Ok(out);
        },
        Some(v) => v,
    };
    proof {
        lemma_table_view(project);
    }
    let fields = match project {
        TomlValue::Table(es) => es,
        _ => {
            return Err(ManifestError::InvalidProjectTable);
        },
    };
    let deps_name = key_string("dependencies");
    assert(deps_name@ =~= dependencies_key());
    match lookup_entry(fields, &deps_name) {
        None => {},
        Some(v) => {
            proof {
                lemma_table_view(v);
            }
            match v {
                TomlValue::Array(items) => {
                    push_texts(&mut out, items);
                },
                _ => {
                    return Err(ManifestError::InvalidDependenciesArray);
                },
            }
        },
    }
    assert(required_specs(entries_view(fields@)) == Ok::<Seq<Seq<char>>, ManifestError>(strings_view(out@))) by {
        assert(Seq::<Seq<char>>::empty() + strings_view(out@) =~= strings_view(out@));
    }
    let optional_name = key_string("optional-dependencies");
    assert(optional_name@ =~= optional_dependencies_key());
    match lookup_entry(fields, &optional_name) {
        None => {},
        Some(v) => {
            proof {
                lemma_table_view(v);
            }
            match v {
                TomlValue::Table(groups) => {
                    match group_specifiers(groups) {
                        None => {
                            return Err(ManifestError::InvalidOptionalDependenciesTable);
                        },
                        Some(more) => {
                            let mut k: usize = 0;
                            let ghost start = strings_view(out@);
                            while k < more.len()
                                invariant
                                    k <= more.len(),
                                    strings_view(out@) == start + strings_view(more@).take(k as int),
                                decreases more.len() - k,
                            {
                                let ghost before = out@;
                                let next = more[k].clone();
                                out.push(next);
                                assert(strings_view(out@) =~= strings_view(before).push(more@[k as int]@));
                                assert(strings_view(out@) =~= start + strings_view(more@).take(k + 1));
                                k = k + 1;
                            }
                            assert(strings_view(more@).take(more.len() as int) =~= strings_view(more@));
                        },
                    }
                },
                _ => {
                    return Err(ManifestError::InvalidOptionalDependenciesTable);
                },
            }
        },
    }
    Ok(out)
}

} // verus!
