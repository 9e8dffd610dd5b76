//! Classification of the files of one module by the shape of their paths.
//!
//! The category of a file and its logical module path are pure functions of
//! its relative path, specified here over character sequences.  Directory
//! traversal itself is delegated to the `ignore` crate behind a trusted
//! wrapper; everything done with the walked entries is verified.

use vstd::prelude::*;

use crate::sorting::{
    insertion_sort, key_lt_of, lemma_isort_map, lemma_isort_sorted, sorted_lt, spec_isort,
    strict_order, OrderedByKey,
};
use crate::strutil::{
    contains_seq, lemma_lex_lt_asymmetric, lemma_lex_lt_transitive, lemma_split_nonempty, lex_lt,
    spec_split, spec_strip_root, split_char, str_contains, str_eq, str_has_suffix, str_lex_lt,
    strip_root,
};

verus! {

/// The role of a source file within its module.
#[derive(Clone, Copy, Debug, PartialEq, Eq, Structural)]
pub enum FileCategory {
    /// Main source code under the source root.
    Source,
    /// Unit tests: a file below a `tests` directory inside the source root.
    Test,
    /// Integration tests: a file below a top-level `tests` directory.
    IntegrationTest,
    /// Examples under a top-level `examples` directory.
    Example,
    /// Benchmarks under a top-level `benches` directory.
    Benchmark,
    /// The build script at the module root.
    BuildScript,
    /// Anything else.
    Other,
}

/// A classified source file.
pub struct SourceFile {
    /// Path as yielded by the walker.
    pub path: String,
    /// Path relative to the module root.
    pub relative_path: String,
    /// Role category, a pure function of `relative_path`.
    pub category: FileCategory,
    /// Logical module path, a pure function of `relative_path`.
    pub mod_path: String,
}

/// The mathematical content of a [`SourceFile`].
pub ghost struct SourceFileView {
    pub path: Seq<char>,
    pub relative_path: Seq<char>,
    pub category: FileCategory,
    pub mod_path: Seq<char>,
}

impl View for SourceFile {
    type V = SourceFileView;

    open spec fn view(&self) -> SourceFileView {
        SourceFileView {
            path: self.path@,
            relative_path: self.relative_path@,
            category: self.category,
            mod_path: self.mod_path@,
        }
    }
}

/// The view of a single source file as a first-class function.
pub open spec fn sf_view_fn() -> spec_fn(SourceFile) -> SourceFileView {
    |f: SourceFile| f@
}

/// The views of a sequence of source files.
pub open spec fn sf_views(s: Seq<SourceFile>) -> Seq<SourceFileView> {
    s.map_values(sf_view_fn())
}

/// The order in which classified files are returned: lexicographic by
/// relative path.
pub open spec fn sfv_lt() -> spec_fn(SourceFileView, SourceFileView) -> bool {
    |a: SourceFileView, b: SourceFileView| lex_lt(a.relative_path, b.relative_path)
}

impl OrderedByKey for SourceFile {
    open spec fn key_lt_spec(&self, other: &Self) -> bool {
        lex_lt(self.relative_path@, other.relative_path@)
    }

    fn key_lt(&self, other: &Self) -> (r: bool) {
        str_lex_lt(self.relative_path.as_str(), other.relative_path.as_str())
    }
}

/// The category of a file from its relative path: the build script at the
/// root; files under the source root, with `tests` directories below it
/// holding unit tests; top-level integration tests, examples and benches;
/// everything else is `Other`.
pub open spec fn spec_classify(rel: Seq<char>) -> FileCategory {
    let comps = spec_split(rel, '/');
    if comps.len() == 1 && comps[0] == "build.rs"@ {
        FileCategory::BuildScript
    } else if comps[0] == "src"@ {
        if comps.contains("tests"@) {
            FileCategory::Test
        } else {
            FileCategory::Source
        }
    } else if comps[0] == "tests"@ {
        FileCategory::IntegrationTest
    } else if comps[0] == "examples"@ {
        FileCategory::Example
    } else if comps[0] == "benches"@ {
        FileCategory::Benchmark
    } else {
        FileCategory::Other
    }
}

/// Classifies a file by its relative path.
pub fn classify_file(relative_path: &str) -> (c: FileCategory)
    ensures
        c == spec_classify(relative_path@),
{
    let comps = split_char(relative_path, '/');
    proof {
        lemma_split_nonempty(relative_path@, '/');
    }
    let ghost cv = spec_split(relative_path@, '/');
    let n = comps.len();
    proof {
        assert(comps.deep_view() =~= cv);
        assert(forall|i: int| 0 <= i < n ==> comps.deep_view()[i] == comps@[i]@);
    }
    if n == 1 && str_eq(comps[0].as_str(), "build.rs") {
        return FileCategory::BuildScript;
    }
    if str_eq(comps[0].as_str(), "src") {
        proof {
            assert("src"@ != "tests"@) by {
                reveal_strlit("src");
                reveal_strlit("tests");
            }
        }
        let mut i: usize = 1;
        while i < n
            invariant
                n == comps@.len(),
                cv == spec_split(relative_path@, '/'),
                cv == comps.deep_view(),
                forall|k: int| 0 <= k < n ==> cv[k] == comps@[k]@,
                1 <= i <= n,
                forall|k: int| 0 <= k < i ==> cv[k] != "tests"@,
                cv[0] == "src"@,
            decreases n - i,
        {
            if str_eq(comps[i].as_str(), "tests") {
                proof {
                    assert(cv[i as int] == "tests"@);
                    assert(cv.contains("tests"@));
                    assert(cv.len() == n);
                    assert(n >= 2);
                    assert(cv[0] == "src"@);
                    assert(spec_classify(relative_path@) == FileCategory::Test) by {
                        let comps2 = spec_split(relative_path@, '/');
                        assert(comps2 == cv);
                        assert(!(comps2.len() == 1 && comps2[0] == "build.rs"@));
                        assert(comps2[0] == "src"@);
                        assert(comps2.contains("tests"@));
                    };
                }
                return FileCategory::Test;
            }
            i = i + 1;
        }
        proof {
            assert(!cv.contains("tests"@)) by {
                assert(forall|k: int| 0 <= k < cv.len() ==> cv[k] != "tests"@) by {
                    assert(cv[0] == "src"@);
                    assert("src"@ != "tests"@) by {
                        reveal_strlit("src");
                        reveal_strlit("tests");
                    }
                }
            }
        }
        return FileCategory::Source;
    }
    if str_eq(comps[0].as_str(), "tests") {
        FileCategory::IntegrationTest
    } else if str_eq(comps[0].as_str(), "examples") {
        FileCategory::Example
    } else if str_eq(comps[0].as_str(), "benches") {
        FileCategory::Benchmark
    } else {
        FileCategory::Other
    }
}

/// Removes every trailing `.rs` from a file name.
pub open spec fn spec_trim_rs(name: Seq<char>) -> Seq<char>
    decreases name.len(),
{
    if name.len() >= 3 && name.skip(name.len() - 3) == ".rs"@ {
        spec_trim_rs(name.take(name.len() - 3))
    } else {
        name
    }
}

/// Trims every trailing `.rs` from a file name.
pub fn trim_rs_suffix(name: &str) -> (r: String)
    ensures
        r@ == spec_trim_rs(name@),
    decreases name@.len(),
{
    proof {
        reveal_strlit(".rs");
    }
    let n = name.unicode_len();
    if n >= 3 && str_has_suffix(name, ".rs") {
        let shorter = name.substring_char(0, n - 3);
        proof {
            assert(shorter@ =~= name@.take(name@.len() - 3));
        }
        trim_rs_suffix(shorter)
    } else {
        name.to_owned()
    }
}

/// Whether a trimmed final segment survives in the module path: the
/// index and entry file names that stand for the directory or crate
/// itself are dropped.
pub open spec fn keeps_final_segment(name: Seq<char>) -> bool {
    name != "mod"@ && name != "lib"@ && name != "main"@
}

/// The module-path segments of the tail: every segment as it stands,
/// except the final one, which has its extension trimmed and is dropped
/// altogether when it names the module file itself.
pub open spec fn spec_module_segments(tail: Seq<Seq<char>>) -> Seq<Seq<char>> {
    if tail.len() == 0 {
        Seq::<Seq<char>>::empty()
    } else {
        let last = spec_trim_rs(tail.last());
        if keeps_final_segment(last) {
            tail.drop_last().push(last)
        } else {
            tail.drop_last()
        }
    }
}

/// The logical module path of a file: its path segments after an
/// optional leading source-root segment, the extension trimmed off the
/// final segment and that segment dropped when — and only when it is the
/// final segment — it names the module file itself, all joined with `::`
/// after the fixed root segment `crate`.
pub open spec fn spec_module_path(rel: Seq<char>) -> Seq<char> {
    let comps = spec_split(rel, '/');
    let start: int = if comps[0] == "src"@ {
        1
    } else {
        0
    };
    let tail = comps.skip(start);
    crate::strutil::spec_join(seq!["crate"@] + spec_module_segments(tail), "::"@)
}

/// Computes the logical module path of a file from its relative path.
pub fn compute_module_path(relative_path: &str) -> (r: String)
    ensures
        r@ == spec_module_path(relative_path@),
{
    let comps = split_char(relative_path, '/');
    proof {
        lemma_split_nonempty(relative_path@, '/');
        assert(comps.deep_view() =~= spec_split(relative_path@, '/'));
        assert(forall|i: int|
            0 <= i < comps@.len() ==> comps.deep_view()[i] == comps@[i]@);
    }
    let ghost cv = spec_split(relative_path@, '/');
    let n = comps.len();
    let start: usize = if str_eq(comps[0].as_str(), "src") {
        1
    } else {
        0
    };
    let ghost tail = cv.skip(start as int);
    let mut parts: Vec<String> = Vec::new();
    parts.push("crate".to_owned());
    proof {
        assert(parts.deep_view() =~= seq!["crate"@] + tail.take(0));
    }
    let mut idx: usize = start;
    while idx < n - 1
        invariant
            n == comps@.len(),
            n >= 1,
            cv == spec_split(relative_path@, '/'),
            cv == comps.deep_view(),
            forall|k: int| 0 <= k < n ==> cv[k] == comps@[k]@,
            start <= idx <= n,
            start <= n,
            idx <= n - 1 || idx == start,
            tail == cv.skip(start as int),
            parts.deep_view() =~= seq!["crate"@] + tail.take(idx - start),
        decreases n - idx,
    {
        proof {
            assert(tail[idx - start] == cv[idx as int]);
        }
        let ghost before = parts.deep_view();
        parts.push(comps[idx].clone());
        proof {
            assert(parts.deep_view() =~= before.push(tail[idx - start]));
            assert(tail.take(idx + 1 - start) =~= tail.take(idx - start).push(tail[idx - start]));
        }
        idx = idx + 1;
    }
    if start < n {
        proof {
            assert(idx == n - 1);
            assert(tail.last() == cv[n - 1]);
        }
        let last = trim_rs_suffix(comps[n - 1].as_str());
        let keep = !(str_eq(last.as_str(), "mod") || str_eq(last.as_str(), "lib") || str_eq(
            last.as_str(),
            "main",
        ));
        proof {
            assert(last@ == spec_trim_rs(tail.last()));
            assert(tail.drop_last() =~= tail.take(n - 1 - start));
        }
        if keep {
            let ghost before = parts.deep_view();
            parts.push(last);
            proof {
                assert(parts.deep_view() =~= before.push(spec_trim_rs(tail.last())));
                assert(parts.deep_view() =~= seq!["crate"@] + spec_module_segments(tail));
            }
        } else {
            proof {
                assert(parts.deep_view() =~= seq!["crate"@] + spec_module_segments(tail));
            }
        }
    } else {
        proof {
            assert(tail.len() == 0);
            assert(parts.deep_view() =~= seq!["crate"@] + spec_module_segments(tail));
        }
    }
    crate::strutil::join_strings(&parts, "::")
}

/// Whether the content of a file marks it as holding test code.
pub open spec fn spec_marks_tests(content: Seq<char>) -> bool {
    contains_seq(content, "#[test]"@) || contains_seq(content, "#[cfg(test)]"@)
}

/// Whether file content holds test code, by its test markers.
pub fn content_contains_tests(content: &str) -> (r: bool)
    ensures
        r == spec_marks_tests(content@),
{
    if str_contains(content, "#[test]") {
        true
    } else {
        str_contains(content, "#[cfg(test)]")
    }
}

/// A directory that could not be read during the walk.
pub struct WalkError {
    /// What the walker reported.
    pub detail: String,
}

/// Whether a file name carries the recognized source extension, as file
/// extensions go: a final `.rs` that does not make up the whole name.
pub open spec fn spec_is_rs_name(name: Seq<char>) -> bool {
    name.len() >= 4 && name.skip(name.len() - 3) == ".rs"@
}

/// Whether a walked entry enters the classification: a regular file with
/// the source extension, not below a build-output directory, and not a
/// test when tests are excluded.
pub open spec fn spec_keeps_entry(
    path: Seq<char>,
    is_file: bool,
    root: Seq<char>,
    include_tests: bool,
) -> bool {
    let rel = spec_strip_root(path, root);
    let comps = spec_split(rel, '/');
    &&& is_file
    &&& spec_is_rs_name(comps.last())
    &&& !comps.contains("target"@)
    &&& (include_tests || !(spec_classify(rel) == FileCategory::Test || spec_classify(rel)
        == FileCategory::IntegrationTest))
}

/// The classified view of one kept entry.
pub open spec fn spec_entry_view(path: Seq<char>, root: Seq<char>) -> SourceFileView {
    let rel = spec_strip_root(path, root);
    SourceFileView {
        path: path,
        relative_path: rel,
        category: spec_classify(rel),
        mod_path: spec_module_path(rel),
    }
}

/// The kept, classified entries among the first `k`, in walk order.
pub open spec fn spec_classified_prefix(
    entries: Seq<(Seq<char>, bool)>,
    root: Seq<char>,
    include_tests: bool,
    k: int,
) -> Seq<SourceFileView>
    decreases k,
{
    if k <= 0 {
        Seq::<SourceFileView>::empty()
    } else {
        let prev = spec_classified_prefix(entries, root, include_tests, k - 1);
        let e = entries[k - 1];
        if spec_keeps_entry(e.0, e.1, root, include_tests) {
            prev.push(spec_entry_view(e.0, root))
        } else {
            prev
        }
    }
}

/// The classification of a walk: kept entries, classified, sorted by
/// relative path.
pub open spec fn spec_classify_entries(
    entries: Seq<(Seq<char>, bool)>,
    root: Seq<char>,
    include_tests: bool,
) -> Seq<SourceFileView> {
    spec_isort(spec_classified_prefix(entries, root, include_tests, entries.len() as int), sfv_lt())
}

/// The views of the walked entries.
pub open spec fn entry_views(entries: Seq<(String, bool)>) -> Seq<(Seq<char>, bool)> {
    entries.map_values(|e: (String, bool)| (e.0@, e.1))
}

/// Classifies already-walked entries: keeps the regular files with the
/// source extension outside build-output directories, filters tests when
/// excluded, and returns them sorted by relative path.
pub fn classify_paths(entries: &Vec<(String, bool)>, crate_path: &str, include_tests: bool) -> (r:
    Vec<SourceFile>)
    ensures
        sf_views(r@) == spec_classify_entries(entry_views(entries@), crate_path@, include_tests),
{
    let ghost ev = entry_views(entries@);
    let ghost root = crate_path@;
    let mut kept: Vec<SourceFile> = Vec::new();
    let n = entries.len();
    let mut i: usize = 0;
    proof {
        assert(sf_views(kept@) =~= spec_classified_prefix(ev, root, include_tests, 0));
    }
    while i < n
        invariant
            n == entries@.len(),
            ev == entry_views(entries@),
            root == crate_path@,
            i <= n,
            sf_views(kept@) =~= spec_classified_prefix(ev, root, include_tests, i as int),
        decreases n - i,
    {
        proof {
            assert(ev[i as int] == (entries@[i as int].0@, entries@[i as int].1));
        }
        let path: &String = &entries[i].0;
        let is_file: bool = entries[i].1;
        let ghost rel_spec = spec_strip_root(path@, root);
        if is_file {
            let rel = strip_root(path.as_str(), crate_path);
            let comps = split_char(rel.as_str(), '/');
            proof {
                lemma_split_nonempty(rel@, '/');
                assert(comps.deep_view() =~= spec_split(rel@, '/'));
                assert(comps.deep_view().last() == comps@[comps@.len() - 1]@);
            }
            let last = &comps[comps.len() - 1];
            let is_rs = last.as_str().unicode_len() >= 4 && str_has_suffix(last.as_str(), ".rs");
            proof {
                reveal_strlit(".rs");
                assert(is_rs == spec_is_rs_name(spec_split(rel_spec, '/').last()));
            }
            if is_rs {
                let mut has_target: bool = false;
                let m = comps.len();
                let mut j: usize = 0;
                while j < m
                    invariant
                        m == comps@.len(),
                        comps.deep_view() =~= spec_split(rel_spec, '/'),
                        rel@ == rel_spec,
                        j <= m,
                        forall|k: int| 0 <= k < m ==> comps.deep_view()[k] == comps@[k]@,
                        has_target == exists|k: int|
                            0 <= k < j && comps.deep_view()[k] == "target"@,
                    decreases m - j,
                {
                    if str_eq(comps[j].as_str(), "target") {
                        proof {
                            assert(comps.deep_view()[j as int] == "target"@);
                        }
                        has_target = true;
                    }
                    j = j + 1;
                }
                proof {
                    assert(has_target == spec_split(rel_spec, '/').contains("target"@));
                }
                if !has_target {
                    let category = classify_file(rel.as_str());
                    let is_test_cat = match category {
                        FileCategory::Test => true,
                        FileCategory::IntegrationTest => true,
                        _ => false,
                    };
                    if include_tests || !is_test_cat {
                        let mod_path = compute_module_path(rel.as_str());
                        let ghost before = sf_views(kept@);
                        let sf = SourceFile {
                            path: path.clone(),
                            relative_path: rel,
                            category,
                            mod_path,
                        };
                        proof {
                            assert(sf@ == spec_entry_view(path@, root));
                        }
                        kept.push(sf);
                        proof {
                            assert(sf_views(kept@) =~= before.push(spec_entry_view(path@, root)));
                        }
                    }
                }
            }
        }
        proof {
            let e = ev[i as int];
            if spec_keeps_entry(e.0, e.1, root, include_tests) {
                assert(sf_views(kept@) =~= spec_classified_prefix(
                    ev,
                    root,
                    include_tests,
                    i + 1,
                ));
            } else {
                assert(sf_views(kept@) =~= spec_classified_prefix(
                    ev,
                    root,
                    include_tests,
                    i + 1,
                ));
            }
        }
        i = i + 1;
    }
    let ghost pre = kept@;
    let sorted = insertion_sort(kept);
    proof {
        assert forall|a: SourceFile, b: SourceFile| #[trigger] key_lt_of::<SourceFile>()(a, b)
            == sfv_lt()(sf_view_fn()(a), sf_view_fn()(b)) by {}
        lemma_isort_map(pre, sf_view_fn(), key_lt_of::<SourceFile>(), sfv_lt());
        assert(sf_views(sorted@) =~= spec_classify_entries(ev, root, include_tests));
    }
    sorted
}

/// Relies on `ignore::WalkBuilder`: walks the tree under `root` honoring
/// the local ignore file, the global one, the repository exclude file and
/// ancestor ignore files, skipping hidden entries and not following
/// symlinks; yields each entry's path and whether it is a regular file,
/// or the walker's error for an unreadable directory.
#[verifier::external_body]
fn walk_tree(root: &str) -> (r: Result<Vec<(String, bool)>, String>) {
    ignore::WalkBuilder::new(root)
        .hidden(true).git_ignore(true).git_global(true).git_exclude(true)
        .parents(true).follow_links(false)
        .build()
        .map(|entry| {
            entry.map(|e| {
                let is_file = e.file_type().map_or(false, |t| t.is_file());
                (e.path().to_string_lossy().into_owned(), is_file)
            }).map_err(|err| err.to_string())
        })
        .collect()
}

/// What holds of every classification result: ordered by relative path,
/// every entry classified and module-pathed from its relative path, and
/// free of test files when tests are excluded.
pub open spec fn classified_wf(
    files: Seq<SourceFileView>,
    root: Seq<char>,
    include_tests: bool,
) -> bool {
    &&& sorted_lt(files, sfv_lt())
    &&& forall|i: int|
        0 <= i < files.len() ==> {
            let f = #[trigger] files[i];
            &&& f.relative_path == spec_strip_root(f.path, root)
            &&& f.category == spec_classify(f.relative_path)
            &&& f.mod_path == spec_module_path(f.relative_path)
            &&& spec_is_rs_name(spec_split(f.relative_path, '/').last())
            &&& !spec_split(f.relative_path, '/').contains("target"@)
            &&& (!include_tests ==> f.category != FileCategory::Test && f.category
                != FileCategory::IntegrationTest)
        }
}

/// The view order on source files is a strict order.
pub proof fn lemma_sfv_strict_order()
    ensures
        strict_order(sfv_lt()),
{
    let lt = sfv_lt();
    assert forall|a: SourceFileView, b: SourceFileView| #[trigger] lt(a, b) implies !lt(b, a) by {
        lemma_lex_lt_asymmetric(a.relative_path, b.relative_path);
    }
    assert forall|a: SourceFileView, b: SourceFileView, c: SourceFileView|
        #[trigger] lt(a, b) && #[trigger] lt(b, c) implies lt(a, c) by {
        lemma_lex_lt_transitive(a.relative_path, b.relative_path, c.relative_path);
    }
}

/// Every element produced by the classification is classified from its
/// own relative path.
proof fn lemma_classified_prefix_wf(
    entries: Seq<(Seq<char>, bool)>,
    root: Seq<char>,
    include_tests: bool,
    k: int,
)
    ensures
        forall|i: int|
            0 <= i < spec_classified_prefix(entries, root, include_tests, k).len() ==> {
                let f = #[trigger] spec_classified_prefix(entries, root, include_tests, k)[i];
                &&& f.relative_path == spec_strip_root(f.path, root)
                &&& f.category == spec_classify(f.relative_path)
                &&& f.mod_path == spec_module_path(f.relative_path)
                &&& spec_is_rs_name(spec_split(f.relative_path, '/').last())
                &&& !spec_split(f.relative_path, '/').contains("target"@)
                &&& (!include_tests ==> f.category != FileCategory::Test && f.category
                    != FileCategory::IntegrationTest)
            },
    decreases k,
{
    if k > 0 {
        lemma_classified_prefix_wf(entries, root, include_tests, k - 1);
    }
}

/// The classification of a walk satisfies [`classified_wf`].
pub proof fn lemma_classify_entries_wf(
    entries: Seq<(Seq<char>, bool)>,
    root: Seq<char>,
    include_tests: bool,
)
    ensures
        classified_wf(spec_classify_entries(entries, root, include_tests), root, include_tests),
{
    let unsorted = spec_classified_prefix(entries, root, include_tests, entries.len() as int);
    let sorted = spec_isort(unsorted, sfv_lt());
    lemma_sfv_strict_order();
    lemma_isort_sorted(unsorted, sfv_lt());
    lemma_classified_prefix_wf(entries, root, include_tests, entries.len() as int);
    crate::sorting::lemma_isort_multiset(unsorted, sfv_lt());
    assert forall|i: int| 0 <= i < sorted.len() implies {
        let f = #[trigger] sorted[i];
        &&& f.relative_path == spec_strip_root(f.path, root)
        &&& f.category == spec_classify(f.relative_path)
        &&& f.mod_path == spec_module_path(f.relative_path)
        &&& spec_is_rs_name(spec_split(f.relative_path, '/').last())
        &&& !spec_split(f.relative_path, '/').contains("target"@)
        &&& (!include_tests ==> f.category != FileCategory::Test && f.category
            != FileCategory::IntegrationTest)
    } by {
        broadcast use vstd::seq_lib::group_to_multiset_ensures;

        assert(sorted.to_multiset().contains(sorted[i]));
        assert(unsorted.to_multiset().contains(sorted[i]));
        assert(unsorted.contains(sorted[i]));
        let j = choose|j: int| 0 <= j < unsorted.len() && unsorted[j] == sorted[i];
    }
}

/// Classification is deterministic: on one unmodified tree, that is on
/// equal walked entries, repeated classification yields identical ordered
/// output.
pub proof fn lemma_classify_idempotent(
    entries1: Seq<(Seq<char>, bool)>,
    entries2: Seq<(Seq<char>, bool)>,
    root: Seq<char>,
    include_tests: bool,
)
    requires
        entries1 == entries2,
    ensures
        spec_classify_entries(entries1, root, include_tests) == spec_classify_entries(
            entries2,
            root,
            include_tests,
        ),
{
}

/// Walks the module's tree and classifies every source file in it,
/// honoring the layered ignore rules; fails when a directory could not
/// be read.
pub fn classify_files(crate_path: &str, include_tests: bool) -> (r: Result<
    Vec<SourceFile>,
    WalkError,
>)
    ensures
        r matches Ok(v) ==> classified_wf(sf_views(v@), crate_path@, include_tests),
{
    match walk_tree(crate_path) {
        Ok(entries) => {
            let files = classify_paths(&entries, crate_path, include_tests);
            proof {
                lemma_classify_entries_wf(entry_views(entries@), crate_path@, include_tests);
            }
            Ok(files)
        },
        Err(detail) => Err(WalkError { detail }),
    }
}

} // verus!
