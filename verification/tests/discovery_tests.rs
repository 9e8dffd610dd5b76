//! Discovery: manifest parsing, member-pattern expansion, and the final
//! ordered, deduplicated module list.

use git2pdf::discovery::{
    crate_from_manifest, finish_discovery, glob_dir_allowed, mark_member, plan_member_query,
    recursive_manifest_dir, sort_crates_by_name, CrateInfo, MemberQuery,
};
use git2pdf::manifest::{default_version, manifest_from_tree, parse_manifest, ManifestError, TomlNode};

#[test]
fn test_discover_crates_single() {
    // This would need a test fixture
}

#[test]
fn default_version_text() {
    assert_eq!(default_version(), "0.0.0");
}

#[test]
fn parse_manifest_package() {
    let m = parse_manifest(
        "[package]\nname = \"demo\"\nversion = \"1.2.3\"\ndescription = \"a demo\"\n",
    )
    .unwrap();
    let p = m.package.unwrap();
    assert_eq!(p.name, "demo");
    assert_eq!(p.version, "1.2.3");
    assert_eq!(p.description.as_deref(), Some("a demo"));
    assert!(m.workspace.is_none());
}

#[test]
fn parse_manifest_version_defaults() {
    let m = parse_manifest("[package]\nname = \"demo\"\n").unwrap();
    let p = m.package.unwrap();
    assert_eq!(p.version, "0.0.0");
    assert!(p.description.is_none());
}

#[test]
fn parse_manifest_errors() {
    assert_eq!(parse_manifest("this is { not toml").unwrap_err(), ManifestError::Syntax);
    assert_eq!(
        parse_manifest("[package]\nversion = \"1.0.0\"\n").unwrap_err(),
        ManifestError::Shape,
    );
    assert_eq!(
        parse_manifest("[package]\nname = \"x\"\nversion = 3\n").unwrap_err(),
        ManifestError::Shape,
    );
    assert_eq!(
        parse_manifest("[workspace]\nmembers = [1, 2]\n").unwrap_err(),
        ManifestError::Shape,
    );
}

#[test]
fn parse_manifest_workspace() {
    let m = parse_manifest(
        "[workspace]\nmembers = [\"a\", \"b/*\"]\nexclude = [\"b/skip\"]\n",
    )
    .unwrap();
    let w = m.workspace.unwrap();
    assert_eq!(w.members.unwrap(), vec!["a".to_string(), "b/*".to_string()]);
    assert_eq!(w.exclude, vec!["b/skip".to_string()]);
    assert!(m.package.is_none());
}

#[test]
fn manifest_from_hand_built_tree() {
    let tree = TomlNode::Table(vec![(
        "package".to_string(),
        TomlNode::Table(vec![("name".to_string(), TomlNode::Str("p".to_string()))]),
    )]);
    let m = manifest_from_tree(tree).unwrap();
    let p = m.package.unwrap();
    assert_eq!(p.name, "p");
    assert_eq!(p.version, "0.0.0");
    assert!(manifest_from_tree(TomlNode::Other).is_err());
}

/// A root with a single manifest declaring one package and no workspace
/// discovers exactly that one module, not marked as a member.
#[test]
fn single_package_discovery() {
    let m = parse_manifest("[package]\nname = \"p\"\nversion = \"2.0.1\"\n").unwrap();
    let root = crate_from_manifest(&m, "/repo").unwrap();
    let list = finish_discovery(Vec::new(), Some(root));
    assert_eq!(list.len(), 1);
    assert_eq!(list[0].name, "p");
    assert_eq!(list[0].version, "2.0.1");
    assert_eq!(list[0].path, "/repo");
    assert!(!list[0].is_workspace_member);
}

/// A workspace with members `a` and `b/*` and exclude `b/skip`: the
/// exact member and every manifest-bearing subdirectory of `b` except
/// the excluded one become members; the root package, when declared, is
/// included as a non-member.
#[test]
fn workspace_discovery() {
    let root_manifest = parse_manifest(
        "[workspace]\nmembers = [\"a\", \"b/*\"]\nexclude = [\"b/skip\"]\n[package]\nname = \"root\"\nversion = \"0.1.0\"\n",
    )
    .unwrap();
    let w = root_manifest.workspace.as_ref().unwrap();
    let exclude = w.exclude.clone();
    let members = w.members.clone().unwrap();

    let mut found: Vec<CrateInfo> = Vec::new();
    for pattern in &members {
        match plan_member_query(pattern.as_str(), &exclude) {
            MemberQuery::Excluded => {}
            MemberQuery::Exact(path) => {
                assert_eq!(path, "a");
                let m = parse_manifest("[package]\nname = \"a\"\n").unwrap();
                let ci = crate_from_manifest(&m, "/repo/a").unwrap();
                found.push(mark_member(ci));
            }
            MemberQuery::Glob(base) => {
                assert_eq!(base, "b/");
                // The filesystem lists b/one, b/skip and b/two.
                for (rel, dir, text) in [
                    ("b/one", "/repo/b/one", Some("[package]\nname = \"one\"\n")),
                    ("b/skip", "/repo/b/skip", Some("[package]\nname = \"skipped\"\n")),
                    ("b/two", "/repo/b/two", None),
                ] {
                    if !glob_dir_allowed(rel, &exclude) {
                        continue;
                    }
                    if let Some(text) = text {
                        let m = parse_manifest(text).unwrap();
                        if let Some(ci) = crate_from_manifest(&m, dir) {
                            found.push(mark_member(ci));
                        }
                    }
                }
            }
        }
    }
    let root = crate_from_manifest(&root_manifest, "/repo");
    let list = finish_discovery(found, root);
    let names: Vec<&str> = list.iter().map(|c| c.name.as_str()).collect();
    assert_eq!(names, vec!["a", "one", "root"]);
    assert!(list[0].is_workspace_member);
    assert!(list[1].is_workspace_member);
    assert!(!list[2].is_workspace_member);
}

#[test]
fn finish_discovery_sorts_and_dedups() {
    let mk = |name: &str, path: &str| CrateInfo {
        name: name.to_string(),
        path: path.to_string(),
        is_workspace_member: true,
        version: "0.0.0".to_string(),
        description: None,
    };
    let list = finish_discovery(
        vec![mk("zeta", "/r/z"), mk("alpha", "/r/a"), mk("alpha", "/r/a")],
        None,
    );
    let names: Vec<&str> = list.iter().map(|c| c.name.as_str()).collect();
    assert_eq!(names, vec!["alpha", "zeta"]);
}

#[test]
fn discovery_idempotent() {
    let mk = |name: &str, path: &str| CrateInfo {
        name: name.to_string(),
        path: path.to_string(),
        is_workspace_member: false,
        version: "1.0.0".to_string(),
        description: None,
    };
    let once = sort_crates_by_name(vec![mk("b", "/b"), mk("a", "/a"), mk("c", "/c")]);
    let twice = sort_crates_by_name(vec![mk("b", "/b"), mk("a", "/a"), mk("c", "/c")]);
    let n1: Vec<&str> = once.iter().map(|c| c.name.as_str()).collect();
    let n2: Vec<&str> = twice.iter().map(|c| c.name.as_str()).collect();
    assert_eq!(n1, n2);
    assert_eq!(n1, vec!["a", "b", "c"]);
}

#[test]
fn member_query_exclusion() {
    let exclude = vec!["b/skip".to_string()];
    assert!(matches!(
        plan_member_query("b/skipper", &exclude),
        MemberQuery::Excluded
    ));
    assert!(matches!(plan_member_query("a", &exclude), MemberQuery::Exact(_)));
    assert!(!glob_dir_allowed("b/skip", &exclude));
    assert!(glob_dir_allowed("b/one", &exclude));
}

#[test]
fn recursive_manifest_recognition() {
    assert_eq!(
        recursive_manifest_dir("/repo/sub/Cargo.toml").as_deref(),
        Some("/repo/sub"),
    );
    assert!(recursive_manifest_dir("/repo/target/sub/Cargo.toml").is_none());
    assert!(recursive_manifest_dir("/repo/node_modules/x/Cargo.toml").is_none());
    assert!(recursive_manifest_dir("/repo/sub/other.toml").is_none());
}
