//! Assembly against the real typesetting engine: rendering tiny
//! documents, staging their bytes, and merging them in plan order.

use git2pdf::assembly::{assemble_document, render_artifact};
use git2pdf::pipeline::{merge_order, StagedArtifact};

fn options() -> printpdf::GeneratePdfOptions {
    printpdf::GeneratePdfOptions {
        page_width: Some(210.0),
        page_height: Some(297.0),
        margin_top: Some(5.0),
        margin_right: Some(5.0),
        margin_bottom: Some(5.0),
        margin_left: Some(5.0),
        show_page_numbers: Some(false),
        ..Default::default()
    }
}

/// The combined artifact built from a shuffled completion order equals
/// the one built sequentially, because both merge in plan order.
#[test]
fn combined_artifact_order_independent() {
    let fonts: Vec<(String, Vec<u8>)> = Vec::new();
    let pool = printpdf::html::build_font_pool(&std::collections::BTreeMap::new(), Some(&["monospace"]));
    let opts = options();
    let title = "<html><body><h1>cover</h1></body></html>";
    let one = render_artifact("<html><body><p>one</p></body></html>", &fonts, &opts, &pool)
        .expect("first render");
    let two = render_artifact("<html><body><p>two</p></body></html>", &fonts, &opts, &pool)
        .expect("second render");
    assert!(!one.is_empty());

    // Completion order two-then-one; the plan restores one-then-two.
    let completed = vec![
        StagedArtifact { position: 1, cache_key: "two".to_string() },
        StagedArtifact { position: 0, cache_key: "one".to_string() },
    ];
    let plan = merge_order(completed);
    let by_key = |key: &str| -> Vec<u8> {
        if key == "one" {
            one.clone()
        } else {
            two.clone()
        }
    };
    let shuffled_merge: Vec<Vec<u8>> = plan.iter().map(|a| by_key(a.cache_key.as_str())).collect();
    let sequential_merge: Vec<Vec<u8>> = vec![one.clone(), two.clone()];

    let combined_a = assemble_document(title, &shuffled_merge, &fonts, &opts, &pool)
        .expect("combined artifact");
    let combined_b = assemble_document(title, &sequential_merge, &fonts, &opts, &pool)
        .expect("combined artifact");
    assert!(!combined_a.is_empty());
    assert_eq!(combined_a.len(), combined_b.len());
}

/// Corrupt staged bytes make the merge fail for the module.
#[test]
fn corrupt_artifact_fails_merge() {
    let fonts: Vec<(String, Vec<u8>)> = Vec::new();
    let pool = printpdf::html::build_font_pool(&std::collections::BTreeMap::new(), Some(&["monospace"]));
    let opts = options();
    let title = "<html><body><h1>cover</h1></body></html>";
    let mut merger =
        git2pdf::assembly::Merger::start(title, &fonts, &opts, &pool).expect("cover render");
    let garbage: Vec<u8> = vec![1, 2, 3, 4];
    assert!(merger.append_artifact(&garbage).is_err());
}

#[test]
fn render_yields_artifact_bytes() {
    let fonts: Vec<(String, Vec<u8>)> = Vec::new();
    let pool = printpdf::html::build_font_pool(&std::collections::BTreeMap::new(), Some(&["monospace"]));
    let opts = options();
    let bytes = render_artifact("<html><body><p>probe</p></body></html>", &fonts, &opts, &pool)
        .expect("render");
    assert!(!bytes.is_empty());
}
