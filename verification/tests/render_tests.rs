//! Rendering: escaping, style keys, the class palette, line splitting,
//! and the listing documents.

use git2pdf::render::{line_spans_of, resolve_theme, split_lines};
use git2pdf::style::{generate_css_classes, html_escape, ClassDef, StyleKey};
use git2pdf::templates::{
    font_text, generate_html_for_single_file, generate_title_page_html,
};
use git2pdf::discovery::CrateInfo;

#[test]
fn test_html_escape() {
    assert_eq!(html_escape("<div>"), "&lt;div&gt;");
    assert_eq!(html_escape("a & b"), "a &amp; b");
    assert_eq!(html_escape("\"test\""), "&quot;test&quot;");
}

#[test]
fn escape_single_quote_and_plain() {
    assert_eq!(html_escape("it's"), "it&#39;s");
    assert_eq!(html_escape("plain"), "plain");
}

#[test]
fn style_key_bits() {
    // The engine's font-style bits: bold, underline, italic in order.
    let k = StyleKey::from_parts(18, 52, 86, 255, 1 | 4);
    assert!(k.bold);
    assert!(k.italic);
    assert!(!k.underline);
    assert!(!k.is_default());
    assert_eq!(
        k.to_css(),
        "color: #123456; font-weight: bold; font-style: italic",
    );
}

#[test]
fn style_key_default() {
    let k = StyleKey::from_parts(10, 20, 30, 0, 0);
    assert!(k.is_default());
    assert_eq!(k.to_css(), "");
}

#[test]
fn css_classes_sorted_by_name() {
    let red = StyleKey::from_parts(255, 0, 0, 255, 0);
    let bold = StyleKey::from_parts(0, 0, 0, 255, 1);
    let table = vec![
        ClassDef { key: red, name: "c2".to_string() },
        ClassDef { key: bold, name: "c1".to_string() },
    ];
    let css = generate_css_classes(&table);
    assert_eq!(
        css,
        "        .c1 { color: #000000; font-weight: bold }\n        .c2 { color: #ff0000 }\n",
    );
}

#[test]
fn css_classes_empty() {
    assert_eq!(generate_css_classes(&Vec::new()), "");
}

#[test]
fn split_lines_keeps_endings() {
    assert_eq!(split_lines("a\nb\nc"), vec!["a\n", "b\n", "c"]);
    assert_eq!(split_lines("one\n"), vec!["one\n"]);
    assert_eq!(split_lines(""), Vec::<String>::new());
    assert_eq!(split_lines("\n\n"), vec!["\n", "\n"]);
}

#[test]
fn font_text_tenths() {
    assert_eq!(font_text(60), "6");
    assert_eq!(font_text(65), "6.5");
    assert_eq!(font_text(105), "10.5");
}

#[test]
fn plain_single_file_document() {
    let syntaxes = syntect::parsing::SyntaxSet::load_defaults_newlines();
    let html = generate_html_for_single_file("src/a.rs", "x<1\n", &syntaxes, None, 60);
    assert!(html.starts_with("<!DOCTYPE html>"));
    assert!(html.contains("<title>src/a.rs</title>"));
    assert!(html.contains("font-size: 6pt;"));
    assert!(html.contains(
        "<span class=\"line\"><span class=\"line-number\">1</span><span class=\"line-content\">x&lt;1\n</span></span>\n",
    ));
    assert!(html.ends_with("</pre>\n</body>\n</html>"));
}

#[test]
fn themed_single_file_document_uses_palette() {
    let syntaxes = syntect::parsing::SyntaxSet::load_defaults_newlines();
    let themes = syntect::highlighting::ThemeSet::load_defaults();
    let theme = resolve_theme(&themes, "InspiredGitHub").expect("bundled theme");
    let html = generate_html_for_single_file("src/a.rs", "fn main() {}\n", &syntaxes, Some(theme), 60);
    // Styled spans share named palette classes declared in the head.
    assert!(html.contains(".c1 {"));
    assert!(html.contains("class=\"c1\""));
    assert!(html.contains("main"));
}

#[test]
fn line_outcome_converts_or_degrades() {
    // A successful tokenization converts every raw span.
    let raw = vec![
        (255u8, 0u8, 0u8, 255u8, 1u8, "fn ".to_string()),
        (0u8, 0u8, 0u8, 0u8, 0u8, "main\n".to_string()),
    ];
    let spans = line_spans_of(&"fn main\n".to_string(), Some(raw));
    assert_eq!(spans.len(), 2);
    assert_eq!(spans[0].1, "fn ");
    assert!(spans[0].0.bold);
    assert_eq!(spans[0].0.fg_r, 255);
    assert!(spans[1].0.is_default());

    // A failed tokenization degrades to one unstyled span holding the line.
    let fallback = line_spans_of(&"let x;\n".to_string(), None);
    assert_eq!(fallback.len(), 1);
    assert_eq!(fallback[0].1, "let x;\n");
    assert_eq!(fallback[0].0.fg_a, 255);
    assert!(!fallback[0].0.bold && !fallback[0].0.italic && !fallback[0].0.underline);
}

#[test]
fn themed_render_survives_empty_syntax_set() {
    // A syntax set without any syntax — not even plain text — must not
    // abort the render; every line degrades to its unstyled span.
    let empty = syntect::parsing::SyntaxSet::new();
    let themes = syntect::highlighting::ThemeSet::load_defaults();
    let theme = resolve_theme(&themes, "InspiredGitHub").expect("bundled theme");
    let html = generate_html_for_single_file("src/a.rs", "fn main() {}\n", &empty, Some(theme), 60);
    assert!(html.contains("fn main() {}"));
    assert!(html.ends_with("</pre>\n</body>\n</html>"));
}

#[test]
fn theme_name_none_disables() {
    let themes = syntect::highlighting::ThemeSet::load_defaults();
    assert!(resolve_theme(&themes, "none").is_none());
    assert!(resolve_theme(&themes, "NONE").is_none());
    assert!(resolve_theme(&themes, "InspiredGitHub").is_some());
    // An unknown name falls back to the default theme.
    assert!(resolve_theme(&themes, "no-such-theme").is_some());
}

#[test]
fn crate_document_sections_in_order() {
    let syntaxes = syntect::parsing::SyntaxSet::load_defaults_newlines();
    let info = CrateInfo {
        name: "demo".to_string(),
        path: "/r".to_string(),
        is_workspace_member: false,
        version: "0.1.0".to_string(),
        description: None,
    };
    let files = vec![
        ("src/a.rs".to_string(), "a();\n".to_string()),
        ("src/b.rs".to_string(), "b();\n".to_string()),
    ];
    let html = git2pdf::templates::generate_html_for_crate(
        &info, &files, &syntaxes, None, 60, 1, false,
    );
    assert!(html.contains("<title>demo - Code Review</title>"));
    assert!(html.contains("<h1>demo v0.1.0</h1>"));
    let a = html.find("src/a.rs").expect("first section");
    let b = html.find("src/b.rs").expect("second section");
    assert!(a < b);
    assert!(html.ends_with("</body>\n</html>"));
    assert!(!html.contains("class=\"content\""));

    let columned = git2pdf::templates::generate_html_for_crate(
        &info, &files, &syntaxes, None, 60, 2, true,
    );
    assert!(columned.contains("<div class=\"content\">"));
    assert!(columned.contains("column-count: 2;"));
    assert!(columned.contains("page-break-after: always;"));
}

#[test]
fn title_page_contents() {
    let info = CrateInfo {
        name: "demo<crate>".to_string(),
        path: "/r".to_string(),
        is_workspace_member: false,
        version: "1.0.0".to_string(),
        description: Some("prints & things".to_string()),
    };
    let html = generate_title_page_html(&info, Some("abc123"), 60);
    assert!(html.contains("<h1>demo&lt;crate&gt;</h1>"));
    assert!(html.contains("<div class=\"version\">Version 1.0.0</div>"));
    assert!(html.contains("<div class=\"git-hash\">Commit: abc123</div>"));
    assert!(html.contains("<div class=\"description\">prints &amp; things</div>"));

    let bare = generate_title_page_html(&info, None, 60);
    assert!(!bare.contains("Commit:"));
}
