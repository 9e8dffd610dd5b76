//! Module discovery: which buildable modules a repository declares.
//!
//! The decisions — how a workspace member pattern is expanded, which
//! directories an exclude prefix rules out, how the found modules are
//! ordered and deduplicated — are verified here.  Reading manifest files
//! and listing directories is filesystem work left to the caller, which
//! hands the answers back as plain values.

use vstd::prelude::*;

use crate::manifest::Manifest;
use crate::sorting::{
    insertion_sort, key_lt_of, lemma_isort_map, spec_isort, OrderedByKey,
};
use crate::strutil::{
    has_prefix, lex_lt, spec_join, spec_split, split_char, str_contains_char, str_eq,
    str_has_prefix, str_lex_lt,
};

verus! {

/// A discovered module.
pub struct CrateInfo {
    /// Its name, from the manifest.
    pub name: String,
    /// The directory holding its manifest.
    pub path: String,
    /// Whether it was found through a workspace member pattern.
    pub is_workspace_member: bool,
    /// Its version, from the manifest.
    pub version: String,
    /// Its description, when the manifest gives one.
    pub description: Option<String>,
}

/// The mathematical content of a [`CrateInfo`].
pub ghost struct CrateInfoView {
    pub name: Seq<char>,
    pub path: Seq<char>,
    pub is_workspace_member: bool,
    pub version: Seq<char>,
    pub description: Option<Seq<char>>,
}

impl View for CrateInfo {
    type V = CrateInfoView;

    open spec fn view(&self) -> CrateInfoView {
        CrateInfoView {
            name: self.name@,
            path: self.path@,
            is_workspace_member: self.is_workspace_member,
            version: self.version@,
            description: match self.description {
                Some(d) => Some(d@),
                None => None,
            },
        }
    }
}

/// The view of a single module record as a first-class function.
pub open spec fn ci_view_fn() -> spec_fn(CrateInfo) -> CrateInfoView {
    |c: CrateInfo| c@
}

/// The views of a sequence of module records.
pub open spec fn ci_views(s: Seq<CrateInfo>) -> Seq<CrateInfoView> {
    s.map_values(ci_view_fn())
}

/// The order of the final module list: lexicographic by name.
pub open spec fn civ_lt() -> spec_fn(CrateInfoView, CrateInfoView) -> bool {
    |a: CrateInfoView, b: CrateInfoView| lex_lt(a.name, b.name)
}

impl OrderedByKey for CrateInfo {
    open spec fn key_lt_spec(&self, other: &Self) -> bool {
        lex_lt(self.name@, other.name@)
    }

    fn key_lt(&self, other: &Self) -> (r: bool) {
        str_lex_lt(self.name.as_str(), other.name.as_str())
    }
}

/// What a workspace member pattern asks of the filesystem.
pub enum MemberQuery {
    /// The pattern is ruled out by an exclude prefix: nothing to do.
    Excluded,
    /// An exact member path: parse the manifest in that directory.
    Exact(String),
    /// A glob pattern: list the immediate subdirectories of this base
    /// path and try each of them.
    Glob(String),
}

/// The mathematical content of a [`MemberQuery`].
pub ghost enum MemberQueryView {
    Excluded,
    Exact(Seq<char>),
    Glob(Seq<char>),
}

impl View for MemberQuery {
    type V = MemberQueryView;

    open spec fn view(&self) -> MemberQueryView {
        match self {
            MemberQuery::Excluded => MemberQueryView::Excluded,
            MemberQuery::Exact(p) => MemberQueryView::Exact(p@),
            MemberQuery::Glob(b) => MemberQueryView::Glob(b@),
        }
    }
}

/// How a member pattern is expanded: a pattern holding a wildcard asks for
/// the subdirectories of everything before the first wildcard; an exact
/// pattern matching an exclude prefix is dropped; any other exact pattern
/// names a member directory.
pub open spec fn spec_member_query(pattern: Seq<char>, exclude: Seq<Seq<char>>) -> MemberQueryView {
    if pattern.contains('*') {
        MemberQueryView::Glob(spec_split(pattern, '*')[0])
    } else if exists|i: int| 0 <= i < exclude.len() && has_prefix(pattern, #[trigger] exclude[i]) {
        MemberQueryView::Excluded
    } else {
        MemberQueryView::Exact(pattern)
    }
}

/// Plans the expansion of one workspace member pattern.
pub fn plan_member_query(pattern: &str, exclude: &Vec<String>) -> (r: MemberQuery)
    ensures
        r@ == spec_member_query(pattern@, exclude.deep_view()),
{
    let ghost ev = exclude.deep_view();
    if str_contains_char(pattern, '*') {
        let pieces = split_char(pattern, '*');
        proof {
            crate::strutil::lemma_split_nonempty(pattern@, '*');
            assert(pieces.deep_view()[0] == pieces@[0]@);
        }
        MemberQuery::Glob(pieces[0].clone())
    } else {
        let n = exclude.len();
        let mut i: usize = 0;
        while i < n
            invariant
                n == exclude@.len(),
                ev == exclude.deep_view(),
                i <= n,
                forall|k: int| 0 <= k < i ==> !has_prefix(pattern@, #[trigger] ev[k]),
                !pattern@.contains('*'),
            decreases n - i,
        {
            proof {
                assert(ev[i as int] == exclude@[i as int]@);
            }
            if str_has_prefix(pattern, exclude[i].as_str()) {
                return MemberQuery::Excluded;
            }
            i = i + 1;
        }
        MemberQuery::Exact(pattern.to_owned())
    }
}

/// Whether a subdirectory found under a glob base survives the exclude
/// list: no exclude entry is a prefix of its path relative to the root.
pub open spec fn spec_glob_dir_allowed(rel: Seq<char>, exclude: Seq<Seq<char>>) -> bool {
    forall|i: int| 0 <= i < exclude.len() ==> !has_prefix(rel, #[trigger] exclude[i])
}

/// Decides whether a glob-expanded subdirectory survives the exclude list.
pub fn glob_dir_allowed(rel: &str, exclude: &Vec<String>) -> (r: bool)
    ensures
        r == spec_glob_dir_allowed(rel@, exclude.deep_view()),
{
    let ghost ev = exclude.deep_view();
    let n = exclude.len();
    let mut i: usize = 0;
    while i < n
        invariant
            n == exclude@.len(),
            ev == exclude.deep_view(),
            i <= n,
            forall|k: int| 0 <= k < i ==> !has_prefix(rel@, #[trigger] ev[k]),
        decreases n - i,
    {
        proof {
            assert(ev[i as int] == exclude@[i as int]@);
        }
        if str_has_prefix(rel, exclude[i].as_str()) {
            return false;
        }
        i = i + 1;
    }
    true
}

/// The module record a manifest in `dir` yields: its package if it
/// declares one, initially not marked as a workspace member.
pub fn crate_from_manifest(m: &Manifest, dir: &str) -> (r: Option<CrateInfo>)
    ensures
        match (m@.package, r) {
            (Some(p), Some(c)) => c@ == (CrateInfoView {
                name: p.name,
                path: dir@,
                is_workspace_member: false,
                version: p.version,
                description: p.description,
            }),
            (None, None) => true,
            _ => false,
        },
{
    match &m.package {
        Some(p) => {
            let description = match &p.description {
                Some(d) => Some(d.clone()),
                None => None,
            };
            Some(
                CrateInfo {
                    name: p.name.clone(),
                    path: dir.to_owned(),
                    is_workspace_member: false,
                    version: p.version.clone(),
                    description,
                },
            )
        },
        None => None,
    }
}

/// Marks a module record as found through a workspace member pattern.
pub fn mark_member(c: CrateInfo) -> (r: CrateInfo)
    ensures
        r@ == (CrateInfoView { is_workspace_member: true, ..c@ }),
{
    CrateInfo {
        name: c.name,
        path: c.path,
        is_workspace_member: true,
        version: c.version,
        description: c.description,
    }
}

/// Removing, among the first `k` records, each one whose path equals the
/// path of the record kept just before it.
pub open spec fn spec_dedup_by_path(s: Seq<CrateInfoView>, k: int) -> Seq<CrateInfoView>
    decreases k,
{
    if k <= 0 {
        Seq::<CrateInfoView>::empty()
    } else {
        let prev = spec_dedup_by_path(s, k - 1);
        if prev.len() > 0 && prev.last().path == s[k - 1].path {
            prev
        } else {
            prev.push(s[k - 1])
        }
    }
}

/// The finished discovery list: the workspace members in pattern order,
/// then the root package if any, sorted by name, with records of equal
/// path deduplicated (the first kept).
pub open spec fn spec_finish_discovery(
    members: Seq<CrateInfoView>,
    root_package: Option<CrateInfoView>,
) -> Seq<CrateInfoView> {
    let all = match root_package {
        Some(c) => members.push(c),
        None => members,
    };
    let sorted = spec_isort(all, civ_lt());
    spec_dedup_by_path(sorted, sorted.len() as int)
}

/// Discovery is deterministic: the same members and root package always
/// finish to the identical ordered module list.
pub proof fn lemma_discovery_idempotent(
    members1: Seq<CrateInfoView>,
    members2: Seq<CrateInfoView>,
    root_package: Option<CrateInfoView>,
)
    requires
        members1 == members2,
    ensures
        spec_finish_discovery(members1, root_package) == spec_finish_discovery(
            members2,
            root_package,
        ),
{
}

/// Sorts found modules by name, keeping the input order of equal names.
pub fn sort_crates_by_name(crates: Vec<CrateInfo>) -> (r: Vec<CrateInfo>)
    ensures
        ci_views(r@) == spec_isort(ci_views(crates@), civ_lt()),
{
    let ghost pre = crates@;
    let sorted = insertion_sort(crates);
    proof {
        lemma_isort_map(pre, ci_view_fn(), key_lt_of::<CrateInfo>(), civ_lt());
        assert(ci_views(sorted@) =~= spec_isort(ci_views(pre), civ_lt()));
    }
    sorted
}

/// Finishes a workspace discovery: appends the root package when there is
/// one, sorts everything by name and removes duplicate paths.
pub fn finish_discovery(members: Vec<CrateInfo>, root_package: Option<CrateInfo>) -> (r: Vec<
    CrateInfo,
>)
    ensures
        ci_views(r@) == spec_finish_discovery(
            ci_views(members@),
            match root_package {
                Some(c) => Some(c@),
                None => None,
            },
        ),
{
    let mut all = members;
    match root_package {
        Some(c) => {
            let ghost before = ci_views(all@);
            all.push(c);
            proof {
                assert(ci_views(all@) =~= before.push(c@));
            }
        },
        None => {},
    }
    let sorted = sort_crates_by_name(all);
    let ghost sv = ci_views(sorted@);
    let n = sorted.len();
    proof {
        assert(sv.len() == n);
    }
    let mut out: Vec<CrateInfo> = Vec::new();
    let mut rest = sorted;
    let mut i: usize = 0;
    proof {
        assert(ci_views(out@) =~= spec_dedup_by_path(sv, 0));
    }
    while rest.len() > 0
        invariant
            i + rest@.len() == sv.len(),
            sv.len() <= usize::MAX,
            ci_views(rest@) =~= sv.skip(i as int),
            ci_views(out@) =~= spec_dedup_by_path(sv, i as int),
        decreases rest@.len(),
    {
        let ghost prev_rest = rest@;
        let c = rest.remove(0);
        proof {
            assert(c == prev_rest[0]);
            assert(ci_views(prev_rest)[0] == prev_rest[0]@);
            assert(c@ == sv[i as int]);
            assert(rest@ =~= prev_rest.drop_first());
            assert(ci_views(rest@) =~= ci_views(prev_rest).drop_first());
            assert(ci_views(rest@) =~= sv.skip(i as int + 1));
        }
        let duplicate = if out.len() > 0 {
            str_eq(out[out.len() - 1].path.as_str(), c.path.as_str())
        } else {
            false
        };
        proof {
            let prev = spec_dedup_by_path(sv, i as int);
            if out@.len() > 0 {
                assert(ci_views(out@).last() == out@[out@.len() - 1]@);
            }
            assert(duplicate == (prev.len() > 0 && prev.last().path == sv[i as int].path));
        }
        if !duplicate {
            let ghost before = ci_views(out@);
            out.push(c);
            proof {
                assert(ci_views(out@) =~= before.push(sv[i as int]));
            }
        }
        i = i + 1;
    }
    proof {
        assert(ci_views(out@) =~= spec_dedup_by_path(sv, sv.len() as int));
    }
    out
}

/// Where a walked path is a manifest eligible for recursive discovery —
/// a manifest file not under a build-output or dependency-cache
/// directory — the directory holding it.
pub open spec fn spec_manifest_dir(path: Seq<char>) -> Option<Seq<char>> {
    let comps = spec_split(path, '/');
    if comps.last() == "Cargo.toml"@ && !comps.contains("target"@) && !comps.contains(
        "node_modules"@,
    ) {
        Some(spec_join(comps.drop_last(), "/"@))
    } else {
        None
    }
}

/// Recognizes a manifest found by the recursive walk and names the
/// directory that holds it.
pub fn recursive_manifest_dir(path: &str) -> (r: Option<String>)
    ensures
        match r {
            Some(d) => spec_manifest_dir(path@) == Some(d@),
            None => spec_manifest_dir(path@) is None,
        },
{
    let comps = split_char(path, '/');
    proof {
        crate::strutil::lemma_split_nonempty(path@, '/');
        assert(forall|i: int|
            0 <= i < comps@.len() ==> comps.deep_view()[i] == comps@[i]@);
    }
    let ghost cv = spec_split(path@, '/');
    let n = comps.len();
    if !str_eq(comps[n - 1].as_str(), "Cargo.toml") {
        return None;
    }
    let mut i: usize = 0;
    while i < n
        invariant
            n == comps@.len(),
            cv == spec_split(path@, '/'),
            cv == comps.deep_view(),
            forall|k: int| 0 <= k < n ==> cv[k] == comps@[k]@,
            i <= n,
            forall|k: int| 0 <= k < i ==> cv[k] != "target"@ && cv[k] != "node_modules"@,
        decreases n - i,
    {
        if str_eq(comps[i].as_str(), "target") || str_eq(comps[i].as_str(), "node_modules") {
            proof {
                assert(cv[i as int] == "target"@ || cv[i as int] == "node_modules"@);
                assert(cv.contains("target"@) || cv.contains("node_modules"@));
            }
            return None;
        }
        i = i + 1;
    }
    let mut parts: Vec<String> = Vec::new();
    let mut j: usize = 0;
    proof {
        assert(parts.deep_view() =~= cv.drop_last().take(0));
    }
    while j < n - 1
        invariant
            n == comps@.len(),
            n >= 1,
            cv == spec_split(path@, '/'),
            cv == comps.deep_view(),
            forall|k: int| 0 <= k < n ==> cv[k] == comps@[k]@,
            j <= n - 1,
            parts.deep_view() =~= cv.drop_last().take(j as int),
        decreases n - 1 - j,
    {
        let ghost before = parts.deep_view();
        parts.push(comps[j].clone());
        proof {
            assert(cv.drop_last()[j as int] == cv[j as int]);
            assert(parts.deep_view() =~= before.push(cv[j as int]));
            assert(cv.drop_last().take(j + 1) =~= cv.drop_last().take(j as int).push(
                cv.drop_last()[j as int],
            ));
        }
        j = j + 1;
    }
    proof {
        assert(cv.drop_last().take(n - 1) =~= cv.drop_last());
    }
    let dir = crate::strutil::join_strings(&parts, "/");
    Some(dir)
}

} // verus!
