//! Collection of the declared and the installed dependency mappings from the
//! texts of their sources.
use vstd::prelude::*;
use vstd::string::*;
use crate::manifest::{
    entries_view, manifest_specifiers, manifest_specs, parse_toml, strings_view, toml_document,
    ManifestError, TomlData, TomlEntry,
};
use crate::mapping::DependencyMap;
use crate::specifier::{parse, split_module_and_version};
use crate::text::{find, find_in, lemma_find_bounds, trim, trim_owned};

verus! {

/// `s` without one trailing carriage return.
pub open spec fn strip_cr(s: Seq<char>) -> Seq<char> {
    if s.len() > 0 && s.last() == '\r' {
        s.drop_last()
    } else {
        s
    }
}

/// The lines of a text, as `str::lines` gives them: split at each `\n`, with a
/// `\r` just before that `\n` dropped, and no empty line after a final `\n`. A
/// last line that no `\n` ends is kept whole, a trailing `\r` included.
pub open spec fn lines_of(s: Seq<char>) -> Seq<Seq<char>>
    decreases s.len(),
{
    if s.len() == 0 {
        seq![]
    } else {
        match find(s, seq!['\n']) {
            Some(i) => if 0 <= i < s.len() {
                seq![strip_cr(s.subrange(0, i))] + lines_of(s.subrange(i + 1, s.len() as int))
            } else {
                seq![]
            },
            None => seq![s],
        }
    }
}

/// Whether a specifier holds nothing but whitespace. Such lines declare nothing.
pub open spec fn is_blank(s: Seq<char>) -> bool {
    trim(s).len() == 0
}

/// `m` with each specifier of `specs` parsed and inserted in turn, blank ones
/// passed over; a later specifier of a name overwrites an earlier one.
pub open spec fn add_all(m: Map<Seq<char>, Seq<char>>, specs: Seq<Seq<char>>) -> Map<
    Seq<char>,
    Seq<char>,
>
    decreases specs.len(),
{
    if specs.len() == 0 {
        m
    } else {
        let before = add_all(m, specs.drop_last());
        if is_blank(specs.last()) {
            before
        } else {
            before.insert(parse(specs.last()).0, parse(specs.last()).1)
        }
    }
}

/// `m` with the lines of each text of `texts` added in turn.
pub open spec fn add_texts(m: Map<Seq<char>, Seq<char>>, texts: Seq<Seq<char>>) -> Map<
    Seq<char>,
    Seq<char>,
>
    decreases texts.len(),
{
    if texts.len() == 0 {
        m
    } else {
        add_all(add_texts(m, texts.drop_last()), lines_of(texts.last()))
    }
}

/// The lines of each text of `texts`, text after text.
pub open spec fn all_lines(texts: Seq<Seq<char>>) -> Seq<Seq<char>>
    decreases texts.len(),
{
    if texts.len() == 0 {
        seq![]
    } else {
        all_lines(texts.drop_last()) + lines_of(texts.last())
    }
}

/// The specifiers of the declared collection, in the order they are inserted:
/// the lines of the requirement files, then those of the manifest's document.
pub open spec fn declared_specs(
    requirements: Seq<Seq<char>>,
    doc: Option<Seq<(Seq<char>, TomlData)>>,
) -> Result<Seq<Seq<char>>, ManifestError> {
    match doc {
        None => Ok(all_lines(requirements)),
        Some(d) => match manifest_specs(d) {
            Err(e) => Err(e),
            Ok(specs) => Ok(all_lines(requirements) + specs),
        },
    }
}

/// The declared mapping: the lines of the requirement files, then the
/// specifiers of the manifest's document, if there is one.
pub open spec fn declared(
    requirements: Seq<Seq<char>>,
    doc: Option<Seq<(Seq<char>, TomlData)>>,
) -> Result<Map<Seq<char>, Seq<char>>, ManifestError> {
    let m = add_texts(Map::empty(), requirements);
    match doc {
        None => Ok(m),
        Some(d) => match manifest_specs(d) {
            Err(e) => Err(e),
            Ok(specs) => Ok(add_all(m, specs)),
        },
    }
}

/// The installed mapping: the lines of the freeze listing, or nothing where the
/// listing could not be had.
pub open spec fn installed(freeze: Option<Seq<char>>) -> Map<Seq<char>, Seq<char>> {
    match freeze {
        None => Map::empty(),
        Some(t) => add_all(Map::empty(), lines_of(t)),
    }
}

/// `s` without one trailing carriage return.
fn strip_cr_owned(s: &str) -> (r: String)
    ensures
        r@ == strip_cr(s@),
{
    let n = s.unicode_len();
    if n > 0 && s.get_char(n - 1) == '\r' {
        String::from_str(s.substring_char(0, n - 1))
    } else {
        String::from_str(s)
    }
}

/// The lines of `text`, as `str::lines` gives them.
pub fn split_lines(text: &str) -> (r: Vec<String>)
    ensures
        strings_view(r@) == lines_of(text@),
{
    let mut nl: Vec<char> = Vec::new();
    nl.push('\n');
    assert(nl@ =~= seq!['\n']);
    let n = text.unicode_len();
    let mut out: Vec<String> = Vec::new();
    let mut p: usize = 0;
    assert(text@.subrange(0, n as int) =~= text@);
    assert(strings_view(out@) =~= Seq::<Seq<char>>::empty());
    while p < n
        invariant
            n == text@.len(),
            p <= n,
            nl@ == seq!['\n'],
            lines_of(text@) == strings_view(out@) + lines_of(text@.subrange(p as int, n as int)),
        decreases n - p,
    {
        let rest = text.substring_char(p, n);
        let ghost before = out@;
        proof {
            lemma_find_bounds(rest@, nl@);
        }
        match find_in(rest, &nl) {
            Some(i) => {
                let line = strip_cr_owned(rest.substring_char(0, i));
                out.push(line);
                assert(rest@.subrange(i + 1, rest@.len() as int) =~= text@.subrange(p + i + 1, n as int));
                assert(strings_view(out@) =~= strings_view(before).push(line@));
                p = p + i + 1;
            },
            None => {
                let line = String::from_str(rest);
                out.push(line);
                assert(strings_view(out@) =~= strings_view(before).push(line@));
                p = n;
            },
        }
    }
    assert(strings_view(out@) + Seq::<Seq<char>>::empty() =~= strings_view(out@));
    out
}

/// Parses each specifier of `specs` in turn and inserts it into `map`, passing
/// over blank ones.
pub fn add_specifiers(map: &mut DependencyMap, specs: &Vec<String>)
    requires
        old(map).wf(),
    ensures
        final(map).wf(),
        final(map)@ == add_all(old(map)@, strings_view(specs@)),
{
    let ghost start = map@;
    let mut i: usize = 0;
    while i < specs.len()
        invariant
            i <= specs.len(),
            map.wf(),
            map@ == add_all(start, strings_view(specs@).take(i as int)),
        decreases specs.len() - i,
    {
        let ghost t = strings_view(specs@).take(i + 1);
        assert(t.drop_last() =~= strings_view(specs@).take(i as int));
        assert(t.last() == specs@[i as int]@);
        let trimmed = trim_owned(specs[i].as_str());
        if trimmed.unicode_len() > 0 {
            let (name, constraint) = split_module_and_version(specs[i].as_str());
            map.insert(name, constraint);
        }
        i = i + 1;
    }
    assert(strings_view(specs@).take(specs.len() as int) =~= strings_view(specs@));
}

/// Parses each line of `text` as a specifier and inserts it into `map`,
/// passing over blank lines. Comment lines are not recognised: they are parsed
/// as specifiers like any other line.
pub fn add_text(map: &mut DependencyMap, text: &str)
    requires
        old(map).wf(),
    ensures
        final(map).wf(),
        final(map)@ == add_all(old(map)@, lines_of(text@)),
{
    let lines = split_lines(text);
    add_specifiers(map, &lines);
}

/// The installed mapping, from the text of the freeze listing; `None` stands
/// for a freeze command that did not succeed, which yields an empty mapping.
/// Each line is parsed as a specifier; blank lines (whitespace only) are
/// skipped, and a later line of a name overwrites an earlier one.
pub fn get_pip_dependencies(freeze: Option<&str>) -> (r: DependencyMap)
    ensures
        r.wf(),
        r@ == installed(
            match freeze {
                Some(t) => Some(t@),
                None => None,
            },
        ),
{
    let mut map = DependencyMap::new();
    match freeze {
        Some(t) => {
            add_text(&mut map, t);
        },
        None => {},
    }
    map
}

/// The declared mapping from the texts of the requirement files, in order, and
/// the entries of the parsed manifest, if any. Blank lines are skipped, and a
/// later specifier of a name overwrites an earlier one.
pub fn declared_dependencies(requirements: &Vec<String>, doc: Option<&Vec<TomlEntry>>) -> (r:
    Result<DependencyMap, ManifestError>)
    ensures
        r matches Ok(m) ==> m.wf() && declared(
            strings_view(requirements@),
            match doc {
                Some(d) => Some(entries_view(d@)),
                None => None,
            },
        ) == Ok::<Map<Seq<char>, Seq<char>>, ManifestError>(m@),
        r matches Err(e) ==> declared(
            strings_view(requirements@),
            match doc {
                Some(d) => Some(entries_view(d@)),
                None => None,
            },
        ) == Err::<Map<Seq<char>, Seq<char>>, ManifestError>(e),
{
    let mut map = DependencyMap::new();
    let mut i: usize = 0;
    while i < requirements.len()
        invariant
            i <= requirements.len(),
            map.wf(),
            map@ == add_texts(Map::empty(), strings_view(requirements@).take(i as int)),
        decreases requirements.len() - i,
    {
        let ghost t = strings_view(requirements@).take(i + 1);
        assert(t.drop_last() =~= strings_view(requirements@).take(i as int));
        assert(t.last() == requirements@[i as int]@);
        add_text(&mut map, requirements[i].as_str());
        i = i + 1;
    }
    assert(strings_view(requirements@).take(requirements.len() as int) =~= strings_view(
        requirements@,
    ));
    match doc {
        None => Ok(map),
        Some(d) => match manifest_specifiers(d) {
            Err(e) => Err(e),
            Ok(specs) => {
                add_specifiers(&mut map, &specs);
                Ok(map)
            },
        },
    }
}

/// The declared mapping from the texts of the requirement files, in order, and
/// the text of the manifest, if there is one. A manifest that is not valid TOML
/// is passed over. Every line of the requirement files, then every specifier of
/// the manifest, is parsed and inserted in that order; blank lines (whitespace
/// only) are skipped, and a later specifier of a name overwrites an earlier one.
pub fn get_file_dependencies(requirements: &Vec<String>, manifest: Option<&str>) -> (r: Result<
    DependencyMap,
    ManifestError,
>)
    ensures
        r matches Ok(m) ==> m.wf() && declared(
            strings_view(requirements@),
            match manifest {
                Some(t) => toml_document(t@),
                None => None,
            },
        ) == Ok::<Map<Seq<char>, Seq<char>>, ManifestError>(m@),
        r matches Err(e) ==> declared(
            strings_view(requirements@),
            match manifest {
                Some(t) => toml_document(t@),
                None => None,
            },
        ) == Err::<Map<Seq<char>, Seq<char>>, ManifestError>(e),
{
    match manifest {
        None => declared_dependencies(requirements, None),
        Some(t) => {
            let doc = parse_toml(t);
            match doc {
                None => declared_dependencies(requirements, None),
                Some(d) => declared_dependencies(requirements, Some(&d)),
            }
        },
    }
}

} // verus!
