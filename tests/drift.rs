use req_drift::collect::{add_specifiers, add_text, declared_dependencies, get_file_dependencies, get_pip_dependencies, split_lines};
use req_drift::manifest::{manifest_specifiers, ManifestError, TomlEntry, TomlValue};
use req_drift::mapping::DependencyMap;
use req_drift::reconcile::{compare, compare_file_with_pip, compare_pip_with_file, Drift};
use req_drift::specifier::split_module_and_version;

fn split(s: &str) -> (String, String) {
    split_module_and_version(s)
}

fn pair(a: &str, b: &str) -> (String, String) {
    (a.to_string(), b.to_string())
}

fn map_of(entries: &[(&str, &str)]) -> DependencyMap {
    let mut m = DependencyMap::new();
    for (k, v) in entries {
        m.insert(k.to_string(), v.to_string());
    }
    m
}

fn value(m: &DependencyMap, k: &str) -> Option<String> {
    m.get(&k.to_string()).cloned()
}

#[test]
fn splits_at_each_operator() {
    assert_eq!(split("flask==2.0"), pair("flask", "2.0"));
    assert_eq!(split("a<=1"), pair("a", "1"));
    assert_eq!(split("a>=1"), pair("a", "1"));
    assert_eq!(split("a!=1"), pair("a", "1"));
    assert_eq!(split("a~=1.4"), pair("a", "1.4"));
    assert_eq!(split("a>1"), pair("a", "1"));
    assert_eq!(split("a<1"), pair("a", "1"));
    assert_eq!(split("pkg @ https://x/y.whl"), pair("pkg", "https://x/y.whl"));
}

#[test]
fn trims_both_sides() {
    assert_eq!(split("  requests  >=  2.0 \t"), pair("requests", "2.0"));
    assert_eq!(split("\u{3000}x==1\u{a0}"), pair("x", "1"));
}

#[test]
fn at_sign_has_priority() {
    assert_eq!(split("pkg@http://x>=1"), pair("pkg", "http://x>=1"));
}

#[test]
fn equality_is_tried_before_other_operators() {
    assert_eq!(split("a>=1,==2"), pair("a>=1,", "2"));
    assert_eq!(split("a===1"), pair("a", "=1"));
}

#[test]
fn only_the_first_occurrence_splits() {
    assert_eq!(split("a==1==2"), pair("a", "1==2"));
}

#[test]
fn no_operator_gives_empty_constraint() {
    assert_eq!(split("requests"), pair("requests", ""));
    assert_eq!(split("  requests "), pair("requests", ""));
    assert_eq!(split(""), pair("", ""));
}

#[test]
fn no_operator_fallback_keeps_trailing_equals() {
    assert_eq!(split("foo="), pair("foo", "="));
}

#[test]
fn lines_follow_std_lines() {
    let text = "a\r\nb\n\nc\n";
    let got = split_lines(text);
    let want: Vec<String> = text.lines().map(|l| l.to_string()).collect();
    assert_eq!(got, want);
    assert!(split_lines("").is_empty());
    assert_eq!(split_lines("x"), vec!["x".to_string()]);
    for text in ["a\r", "a\r\nb\r", "\r", "\r\n"] {
        let want: Vec<String> = text.lines().map(|l| l.to_string()).collect();
        assert_eq!(split_lines(text), want);
    }
    assert_eq!(split_lines("a\r"), vec!["a\r".to_string()]);
}

#[test]
fn mapping_insert_overwrites() {
    let mut m = DependencyMap::new();
    m.insert("foo".to_string(), "1.0".to_string());
    m.insert("bar".to_string(), "".to_string());
    m.insert("foo".to_string(), "2.0".to_string());
    assert_eq!(m.len(), 2);
    assert_eq!(value(&m, "foo"), Some("2.0".to_string()));
    assert_eq!(value(&m, "bar"), Some("".to_string()));
    assert_eq!(value(&m, "baz"), None);
}

#[test]
fn later_source_wins() {
    let mut m = DependencyMap::new();
    add_text(&mut m, "foo==1.0\n");
    add_specifiers(&mut m, &vec!["foo>=2.0".to_string()]);
    assert_eq!(m.len(), 1);
    assert_eq!(value(&m, "foo"), Some("2.0".to_string()));
    let reqs = vec!["foo==1.0".to_string(), "foo==3.0".to_string()];
    let d = get_file_dependencies(&reqs, None).unwrap();
    assert_eq!(value(&d, "foo"), Some("3.0".to_string()));
}

#[test]
fn manifest_overrides_requirement_files() {
    let reqs = vec!["foo==1.0\nbar==1".to_string()];
    let manifest = "[project]\nname = \"x\"\ndependencies = [\"foo==2.0\", 3]\n";
    let d = get_file_dependencies(&reqs, Some(manifest)).unwrap();
    assert_eq!(d.len(), 2);
    assert_eq!(value(&d, "foo"), Some("2.0".to_string()));
    assert_eq!(value(&d, "bar"), Some("1".to_string()));
}

#[test]
fn manifest_optional_groups_are_flattened() {
    let manifest = "[project]\ndependencies = [\"a==1\"]\n[project.optional-dependencies]\ndev = [\"b>=2\", \"c\"]\ntest = [\"d<3\"]\n";
    let d = get_file_dependencies(&Vec::new(), Some(manifest)).unwrap();
    assert_eq!(d.len(), 4);
    assert_eq!(value(&d, "a"), Some("1".to_string()));
    assert_eq!(value(&d, "b"), Some("2".to_string()));
    assert_eq!(value(&d, "c"), Some("".to_string()));
    assert_eq!(value(&d, "d"), Some("3".to_string()));
}

#[test]
fn manifest_without_project_or_invalid_is_skipped() {
    let reqs = vec!["a==1".to_string()];
    let d = get_file_dependencies(&reqs, Some("[tool.x]\ny = 1\n")).unwrap();
    assert_eq!(d.len(), 1);
    let d = get_file_dependencies(&reqs, Some("this is [[ not toml")).unwrap();
    assert_eq!(d.len(), 1);
}

#[test]
fn manifest_errors() {
    let e = get_file_dependencies(&Vec::new(), Some("project = 3\n")).unwrap_err();
    assert_eq!(e, ManifestError::InvalidProjectTable);
    let e = get_file_dependencies(&Vec::new(), Some("[project]\ndependencies = \"a\"\n")).unwrap_err();
    assert_eq!(e, ManifestError::InvalidDependenciesArray);
    let e = get_file_dependencies(&Vec::new(), Some("[project]\noptional-dependencies = [\"a\"]\n")).unwrap_err();
    assert_eq!(e, ManifestError::InvalidOptionalDependenciesTable);
    let e = get_file_dependencies(&Vec::new(), Some("[project.optional-dependencies]\ndev = \"a\"\n")).unwrap_err();
    assert_eq!(e, ManifestError::InvalidOptionalDependenciesTable);
    let e = get_file_dependencies(&Vec::new(), Some("[project.optional-dependencies]\ndev = [\"a\", 1]\n")).unwrap_err();
    assert_eq!(e, ManifestError::InvalidOptionalDependenciesTable);
    let ok = get_file_dependencies(&Vec::new(), Some("[project]\ndependencies = [\"a\", 1]\n")).unwrap();
    assert_eq!(ok.len(), 1);
}

#[test]
fn manifest_specifiers_in_order() {
    let text = |s: &str| TomlValue::Text(s.to_string());
    let deps = TomlEntry {
        key: "dependencies".to_string(),
        value: TomlValue::Array(vec![text("z==1"), TomlValue::Other, text("y==2")]),
    };
    let doc = vec![
        TomlEntry { key: "name".to_string(), value: text("x") },
        TomlEntry { key: "project".to_string(), value: TomlValue::Table(vec![deps]) },
    ];
    let specs = manifest_specifiers(&doc).unwrap();
    assert_eq!(specs, vec!["z==1".to_string(), "y==2".to_string()]);
    let empty: Vec<TomlEntry> = Vec::new();
    assert!(manifest_specifiers(&empty).unwrap().is_empty());
}

#[test]
fn declared_dependencies_from_parsed_manifest() {
    let group = TomlEntry {
        key: "dev".to_string(),
        value: TomlValue::Array(vec![TomlValue::Text("foo==9".to_string())]),
    };
    let optional = TomlEntry {
        key: "optional-dependencies".to_string(),
        value: TomlValue::Table(vec![group]),
    };
    let doc = vec![TomlEntry { key: "project".to_string(), value: TomlValue::Table(vec![optional]) }];
    let reqs = vec!["foo==1\nbar".to_string()];
    let d = declared_dependencies(&reqs, Some(&doc)).unwrap();
    assert_eq!(value(&d, "foo"), Some("9".to_string()));
    assert_eq!(value(&d, "bar"), Some("".to_string()));
    let bad = vec![TomlEntry { key: "project".to_string(), value: TomlValue::Other }];
    assert_eq!(declared_dependencies(&reqs, Some(&bad)).unwrap_err(), ManifestError::InvalidProjectTable);
}

#[test]
fn blank_lines_declare_nothing() {
    let d = get_pip_dependencies(Some("a==1\n\n   \nb==2\n"));
    assert_eq!(d.len(), 2);
    assert_eq!(value(&d, ""), None);
}

#[test]
fn failed_freeze_gives_empty_mapping() {
    assert_eq!(get_pip_dependencies(None).len(), 0);
}

#[test]
fn declared_missing_from_installed() {
    let declared = map_of(&[("foo", "1.0")]);
    let installed = DependencyMap::new();
    let r = compare_pip_with_file(&declared, &installed);
    assert_eq!(r.len(), 1);
    assert!(matches!(&r[0], Drift::Missing { name } if name == "foo"));
    assert!(compare_file_with_pip(&declared, &installed).is_empty());
}

#[test]
fn mismatch_reported_both_ways() {
    let declared = map_of(&[("foo", "1.0")]);
    let installed = map_of(&[("foo", "2.0")]);
    let r = compare_pip_with_file(&declared, &installed);
    assert_eq!(r.len(), 1);
    assert!(matches!(&r[0], Drift::Mismatch { name, own, other } if name == "foo" && own == "1.0" && other == "2.0"));
    let r = compare_file_with_pip(&declared, &installed);
    assert_eq!(r.len(), 1);
    assert!(matches!(&r[0], Drift::Mismatch { name, own, other } if name == "foo" && own == "2.0" && other == "1.0"));
}

#[test]
fn equal_constraints_report_nothing() {
    let a = map_of(&[("foo", "1.0"), ("bar", "")]);
    let b = map_of(&[("bar", ""), ("foo", "1.0")]);
    assert!(compare(&a, &b).is_empty());
    assert!(compare(&b, &a).is_empty());
}

#[test]
fn collection_is_idempotent() {
    let reqs = vec!["flask==2.0\nrequests".to_string()];
    let a = get_file_dependencies(&reqs, None).unwrap();
    let b = get_file_dependencies(&reqs, None).unwrap();
    assert_eq!(a.len(), b.len());
    let mut c = a.clone();
    add_text(&mut c, "flask==2.0\nrequests");
    for k in ["flask", "requests"] {
        assert_eq!(value(&a, k), value(&b, k));
        assert_eq!(value(&a, k), value(&c, k));
    }
    assert_eq!(c.len(), a.len());
    let p = get_pip_dependencies(Some("x==1"));
    let q = get_pip_dependencies(Some("x==1"));
    assert_eq!(value(&p, "x"), value(&q, "x"));
}

#[test]
fn end_to_end_scenario() {
    let reqs = vec!["flask==2.0\nrequests".to_string()];
    let declared = get_file_dependencies(&reqs, None).unwrap();
    let installed = get_pip_dependencies(Some("flask==2.1\nclick==8.0"));
    assert_eq!(declared.len(), 2);
    assert_eq!(value(&declared, "flask"), Some("2.0".to_string()));
    assert_eq!(value(&declared, "requests"), Some("".to_string()));
    assert_eq!(installed.len(), 2);
    assert_eq!(value(&installed, "flask"), Some("2.1".to_string()));
    assert_eq!(value(&installed, "click"), Some("8.0".to_string()));

    let r = compare_pip_with_file(&declared, &installed);
    assert_eq!(r.len(), 2);
    assert!(r.iter().any(|d| matches!(d, Drift::Mismatch { name, own, other } if name == "flask" && own == "2.0" && other == "2.1")));
    assert!(r.iter().any(|d| matches!(d, Drift::Missing { name } if name == "requests")));

    let r = compare_file_with_pip(&declared, &installed);
    assert_eq!(r.len(), 2);
    assert!(r.iter().any(|d| matches!(d, Drift::Mismatch { name, own, other } if name == "flask" && own == "2.1" && other == "2.0")));
    assert!(r.iter().any(|d| matches!(d, Drift::Missing { name } if name == "click")));
}

#[test]
fn last_occurrence_wins_across_sources() {
    let reqs = vec!["foo==1\nbar==1\nfoo==2".to_string(), "bar==3\n".to_string()];
    let manifest = "[project]\ndependencies = [\"baz==1\"]\n[project.optional-dependencies]\ndev = [\"foo<9\"]\n";
    let d = get_file_dependencies(&reqs, Some(manifest)).unwrap();
    assert_eq!(d.len(), 3);
    assert_eq!(value(&d, "foo"), Some("9".to_string()));
    assert_eq!(value(&d, "bar"), Some("3".to_string()));
    assert_eq!(value(&d, "baz"), Some("1".to_string()));
}
