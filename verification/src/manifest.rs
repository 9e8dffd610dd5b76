//! Manifest parsing: reading a module manifest out of TOML text.
//!
//! The TOML syntax itself is parsed by the `toml` crate behind a trusted
//! wrapper that reduces the parsed document to the library's own
//! [`TomlNode`] tree; everything the manifest format means — which keys
//! are read, which shapes they must have, which defaults apply — is
//! verified here.

use vstd::prelude::*;

verus! {

/// A parsed TOML document reduced to the shapes the manifest format uses.
pub enum TomlNode {
    /// A TOML string.
    Str(String),
    /// A TOML array.
    Arr(Vec<TomlNode>),
    /// A TOML table: one binding per key; the parser's table hands the
    /// bindings over sorted by key.
    Table(Vec<(String, TomlNode)>),
    /// Any other TOML value: integer, float, boolean or datetime.
    Other,
}

#[verifier::external_type_specification]
#[verifier::external_body]
pub struct ExTomlValue(toml::Value);

/// The TOML tree that the given text parses to, or nothing when the text
/// is not well-formed TOML.
pub uninterp spec fn toml_tree_of(s: Seq<char>) -> Option<TomlNode>;

/// Relies on `toml::Value`: moves the parsed value tree, variant for
/// variant, into the library's own tree.
#[verifier::external_body]
fn value_to_node(v: &toml::Value) -> (r: TomlNode) {
    match v {
        toml::Value::String(s) => TomlNode::Str(s.clone()),
        toml::Value::Array(a) => TomlNode::Arr(a.iter().map(value_to_node).collect()),
        toml::Value::Table(t) => TomlNode::Table(
            t.iter().map(|(k, val)| (k.clone(), value_to_node(val))).collect(),
        ),
        _ => TomlNode::Other,
    }
}

/// Relies on `toml`'s parser: turns TOML text into a table, a function of
/// the text alone; returns nothing exactly when the text is malformed.
#[verifier::external_body]
fn parse_toml_text(text: &str) -> (r: Option<TomlNode>)
    ensures
        r == toml_tree_of(text@),
{
    match text.parse::<toml::Table>() {
        Ok(t) => Some(TomlNode::Table(
            t.iter().map(|(k, val)| (k.clone(), value_to_node(val))).collect(),
        )),
        Err(_) => None,
    }
}

/// The package declaration of a manifest.
#[derive(Debug)]
pub struct ManifestPackage {
    /// Declared name.
    pub name: String,
    /// Declared version, or the default when absent.
    pub version: String,
    /// Declared description, if any.
    pub description: Option<String>,
}

/// The workspace declaration of a manifest.
#[derive(Debug)]
pub struct ManifestWorkspace {
    /// Declared member patterns, if any.
    pub members: Option<Vec<String>>,
    /// Declared exclude prefixes; empty when absent.
    pub exclude: Vec<String>,
}

/// What a manifest declares.
#[derive(Debug)]
pub struct Manifest {
    /// The package, when the manifest declares one.
    pub package: Option<ManifestPackage>,
    /// The workspace, when the manifest declares one.
    pub workspace: Option<ManifestWorkspace>,
}

/// The mathematical content of a [`ManifestPackage`].
pub ghost struct PackageView {
    pub name: Seq<char>,
    pub version: Seq<char>,
    pub description: Option<Seq<char>>,
}

/// The mathematical content of a [`ManifestWorkspace`].
pub ghost struct WorkspaceView {
    pub members: Option<Seq<Seq<char>>>,
    pub exclude: Seq<Seq<char>>,
}

/// The mathematical content of a [`Manifest`].
pub ghost struct ManifestView {
    pub package: Option<PackageView>,
    pub workspace: Option<WorkspaceView>,
}

impl View for ManifestPackage {
    type V = PackageView;

    open spec fn view(&self) -> PackageView {
        PackageView {
            name: self.name@,
            version: self.version@,
            description: match self.description {
                Some(d) => Some(d@),
                None => None,
            },
        }
    }
}

impl View for ManifestWorkspace {
    type V = WorkspaceView;

    open spec fn view(&self) -> WorkspaceView {
        WorkspaceView {
            members: match self.members {
                Some(m) => Some(m.deep_view()),
                None => None,
            },
            exclude: self.exclude.deep_view(),
        }
    }
}

impl View for Manifest {
    type V = ManifestView;

    open spec fn view(&self) -> ManifestView {
        ManifestView {
            package: match self.package {
                Some(p) => Some(p@),
                None => None,
            },
            workspace: match self.workspace {
                Some(w) => Some(w@),
                None => None,
            },
        }
    }
}

/// Why a manifest was rejected.
#[derive(Clone, Copy, Debug, PartialEq, Eq, Structural)]
pub enum ManifestError {
    /// The text is not well-formed TOML.
    Syntax,
    /// The text is TOML, but a manifest key has the wrong shape.
    Shape,
}

/// The version a package declares when it declares none.
pub fn default_version() -> (r: String)
    ensures
        r@ == "0.0.0"@,
{
    "0.0.0".to_owned()
}

/// The value under the first binding of `key`, if any.
pub open spec fn spec_lookup(entries: Seq<(String, TomlNode)>, key: Seq<char>) -> Option<TomlNode>
    decreases entries.len(),
{
    if entries.len() == 0 {
        None
    } else if entries[0].0@ == key {
        Some(entries[0].1)
    } else {
        spec_lookup(entries.drop_first(), key)
    }
}

/// Looks a key up in a table's bindings.
fn lookup_key<'a>(entries: &'a Vec<(String, TomlNode)>, key: &str) -> (r: Option<&'a TomlNode>)
    ensures
        match r {
            Some(v) => spec_lookup(entries@, key@) == Some(*v),
            None => spec_lookup(entries@, key@) is None,
        },
{
    let n = entries.len();
    let mut i: usize = 0;
    proof {
        assert(entries@.skip(0) =~= entries@);
    }
    while i < n
        invariant
            n == entries@.len(),
            i <= n,
            spec_lookup(entries@, key@) == spec_lookup(entries@.skip(i as int), key@),
        decreases n - i,
    {
        proof {
            assert(entries@.skip(i as int)[0] == entries@[i as int]);
            assert(entries@.skip(i as int).drop_first() =~= entries@.skip(i + 1));
        }
        if crate::strutil::str_eq(entries[i].0.as_str(), key) {
            return Some(&entries[i].1);
        }
        i = i + 1;
    }
    proof {
        assert(entries@.skip(n as int) =~= Seq::<(String, TomlNode)>::empty());
    }
    None
}

/// Whether a node is a TOML string.
pub open spec fn is_str_node(n: TomlNode) -> bool {
    match n {
        TomlNode::Str(_) => true,
        _ => false,
    }
}

/// The characters of a string node.
pub open spec fn str_node_chars(n: TomlNode) -> Seq<char> {
    match n {
        TomlNode::Str(s) => s@,
        _ => Seq::<char>::empty(),
    }
}

/// Whether every element of an array is a string.
pub open spec fn all_str_nodes(items: Seq<TomlNode>) -> bool {
    forall|i: int| 0 <= i < items.len() ==> is_str_node(#[trigger] items[i])
}

/// The characters of each string node.
pub open spec fn str_node_views(items: Seq<TomlNode>) -> Seq<Seq<char>> {
    items.map_values(|n: TomlNode| str_node_chars(n))
}

/// Collects an array of strings; fails when some element is not a string.
fn string_list(items: &Vec<TomlNode>) -> (r: Option<Vec<String>>)
    ensures
        match r {
            Some(v) => all_str_nodes(items@) && v.deep_view() == str_node_views(items@),
            None => !all_str_nodes(items@),
        },
{
    let n = items.len();
    let mut out: Vec<String> = Vec::new();
    let mut i: usize = 0;
    while i < n
        invariant
            n == items@.len(),
            i <= n,
            forall|k: int| 0 <= k < i ==> is_str_node(#[trigger] items@[k]),
            out.deep_view() =~= str_node_views(items@.take(i as int)),
        decreases n - i,
    {
        match &items[i] {
            TomlNode::Str(s) => {
                let ghost before = out.deep_view();
                out.push(s.clone());
                proof {
                    assert(out.deep_view() =~= before.push(s@));
                    assert(str_node_views(items@.take(i + 1)) =~= str_node_views(
                        items@.take(i as int),
                    ).push(str_node_chars(items@[i as int])));
                }
            },
            _ => {
                return None;
            },
        }
        i = i + 1;
    }
    proof {
        assert(items@.take(n as int) =~= items@);
    }
    Some(out)
}

/// The package a manifest table declares: under `package`, a table whose
/// `name` is a string, whose `version` is a string or absent (the default
/// version then applies), and whose `description` is a string or absent.
pub open spec fn spec_package_of(entries: Seq<(String, TomlNode)>) -> Result<
    Option<PackageView>,
    ManifestError,
> {
    match spec_lookup(entries, "package"@) {
        None => Ok(None),
        Some(TomlNode::Table(p)) => {
            let pv = p@;
            match spec_lookup(pv, "name"@) {
                Some(TomlNode::Str(name)) => {
                    let version = match spec_lookup(pv, "version"@) {
                        None => Ok("0.0.0"@),
                        Some(TomlNode::Str(v)) => Ok(v@),
                        Some(_) => Err(ManifestError::Shape),
                    };
                    let description = match spec_lookup(pv, "description"@) {
                        None => Ok(None),
                        Some(TomlNode::Str(d)) => Ok(Some(d@)),
                        Some(_) => Err(ManifestError::Shape),
                    };
                    match (version, description) {
                        (Ok(v), Ok(d)) => Ok(
                            Some(PackageView { name: name@, version: v, description: d }),
                        ),
                        _ => Err(ManifestError::Shape),
                    }
                },
                _ => Err(ManifestError::Shape),
            }
        },
        Some(_) => Err(ManifestError::Shape),
    }
}

/// The workspace a manifest table declares: under `workspace`, a table
/// whose `members` is an array of strings or absent, and whose `exclude`
/// is an array of strings or absent (empty then).
pub open spec fn spec_workspace_of(entries: Seq<(String, TomlNode)>) -> Result<
    Option<WorkspaceView>,
    ManifestError,
> {
    match spec_lookup(entries, "workspace"@) {
        None => Ok(None),
        Some(TomlNode::Table(w)) => {
            let wv = w@;
            let members = match spec_lookup(wv, "members"@) {
                None => Ok(None),
                Some(TomlNode::Arr(items)) => if all_str_nodes(items@) {
                    Ok(Some(str_node_views(items@)))
                } else {
                    Err(ManifestError::Shape)
                },
                Some(_) => Err(ManifestError::Shape),
            };
            let exclude = match spec_lookup(wv, "exclude"@) {
                None => Ok(Seq::<Seq<char>>::empty()),
                Some(TomlNode::Arr(items)) => if all_str_nodes(items@) {
                    Ok(str_node_views(items@))
                } else {
                    Err(ManifestError::Shape)
                },
                Some(_) => Err(ManifestError::Shape),
            };
            match (members, exclude) {
                (Ok(m), Ok(e)) => Ok(Some(WorkspaceView { members: m, exclude: e })),
                _ => Err(ManifestError::Shape),
            }
        },
        Some(_) => Err(ManifestError::Shape),
    }
}

/// What a parsed TOML tree declares as a manifest.
pub open spec fn spec_manifest(t: TomlNode) -> Result<ManifestView, ManifestError> {
    match t {
        TomlNode::Table(entries) => {
            match (spec_package_of(entries@), spec_workspace_of(entries@)) {
                (Ok(p), Ok(w)) => Ok(ManifestView { package: p, workspace: w }),
                _ => Err(ManifestError::Shape),
            }
        },
        _ => Err(ManifestError::Shape),
    }
}

/// Reads the package declaration out of a table's bindings.
fn package_of(entries: &Vec<(String, TomlNode)>) -> (r: Result<
    Option<ManifestPackage>,
    ManifestError,
>)
    ensures
        match r {
            Ok(p) => spec_package_of(entries@) == Ok::<_, ManifestError>(
                match p {
                    Some(pp) => Some(pp@),
                    None => None,
                },
            ),
            Err(e) => spec_package_of(entries@) == Err::<Option<PackageView>, _>(e),
        },
{
    let table = match lookup_key(entries, "package") {
        None => {
            return Ok(None);
        },
        Some(TomlNode::Table(p)) => p,
        Some(_) => {
            return Err(ManifestError::Shape);
        },
    };
    let name: String = match lookup_key(table, "name") {
        Some(TomlNode::Str(n)) => n.clone(),
        _ => {
            return Err(ManifestError::Shape);
        },
    };
    let version: String = match lookup_key(table, "version") {
        None => default_version(),
        Some(TomlNode::Str(v)) => v.clone(),
        Some(_) => {
            return Err(ManifestError::Shape);
        },
    };
    let description: Option<String> = match lookup_key(table, "description") {
        None => None,
        Some(TomlNode::Str(d)) => Some(d.clone()),
        Some(_) => {
            return Err(ManifestError::Shape);
        },
    };
    Ok(Some(ManifestPackage { name, version, description }))
}

/// Reads the workspace declaration out of a table's bindings.
fn workspace_of(entries: &Vec<(String, TomlNode)>) -> (r: Result<
    Option<ManifestWorkspace>,
    ManifestError,
>)
    ensures
        match r {
            Ok(w) => spec_workspace_of(entries@) == Ok::<_, ManifestError>(
                match w {
                    Some(ww) => Some(ww@),
                    None => None,
                },
            ),
            Err(e) => spec_workspace_of(entries@) == Err::<Option<WorkspaceView>, _>(e),
        },
{
    let table = match lookup_key(entries, "workspace") {
        None => {
            return Ok(None);
        },
        Some(TomlNode::Table(w)) => w,
        Some(_) => {
            return Err(ManifestError::Shape);
        },
    };
    let members: Option<Vec<String>> = match lookup_key(table, "members") {
        None => None,
        Some(TomlNode::Arr(items)) => match string_list(items) {
            Some(v) => Some(v),
            None => {
                return Err(ManifestError::Shape);
            },
        },
        Some(_) => {
            return Err(ManifestError::Shape);
        },
    };
    let exclude: Vec<String> = match lookup_key(table, "exclude") {
        None => {
            let v: Vec<String> = Vec::new();
            proof {
                assert(v.deep_view() =~= Seq::<Seq<char>>::empty());
            }
            v
        },
        Some(TomlNode::Arr(items)) => match string_list(items) {
            Some(v) => v,
            None => {
                return Err(ManifestError::Shape);
            },
        },
        Some(_) => {
            return Err(ManifestError::Shape);
        },
    };
    Ok(Some(ManifestWorkspace { members, exclude }))
}

/// Reads the manifest out of a parsed TOML tree, verifying the manifest
/// format's own key shapes.
pub fn manifest_from_tree(tree: TomlNode) -> (r: Result<Manifest, ManifestError>)
    ensures
        match r {
            Ok(m) => spec_manifest(tree) == Ok::<_, ManifestError>(m@),
            Err(e) => spec_manifest(tree) == Err::<ManifestView, _>(e) && e
                != ManifestError::Syntax,
        },
{
    let entries = match tree {
        TomlNode::Table(entries) => entries,
        _ => {
            return Err(ManifestError::Shape);
        },
    };
    let package = match package_of(&entries) {
        Ok(p) => p,
        Err(e) => {
            return Err(e);
        },
    };
    let workspace = match workspace_of(&entries) {
        Ok(w) => w,
        Err(e) => {
            return Err(e);
        },
    };
    Ok(Manifest { package, workspace })
}

/// Parses manifest text: TOML syntax by the `toml` crate, the manifest's
/// own key shapes verified; fails with `Syntax` on malformed TOML and
/// with `Shape` when a read key has the wrong shape.
pub fn parse_manifest(text: &str) -> (r: Result<Manifest, ManifestError>)
    ensures
        toml_tree_of(text@) is None ==> r == Err::<Manifest, _>(ManifestError::Syntax),
        toml_tree_of(text@) matches Some(t) ==> match r {
            Ok(m) => spec_manifest(t) == Ok::<_, ManifestError>(m@),
            Err(e) => spec_manifest(t) == Err::<ManifestView, _>(e) && e != ManifestError::Syntax,
        },
{
    let tree = match parse_toml_text(text) {
        None => {
            return Err(ManifestError::Syntax);
        },
        Some(t) => t,
    };
    manifest_from_tree(tree)
}

} // verus!
