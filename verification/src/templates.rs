//! The HTML documents the renderer hands to the typesetting engine: a
//! full per-file listing document, the per-module document, and the
//! cover page.  Every template is exact: the spec functions state the
//! produced markup character for character.
//!
//! Font sizes are carried in tenths of a typographic point, so the
//! templates stay within integer arithmetic; a size of 65 prints as 6.5.

use vstd::prelude::*;

use crate::discovery::{CrateInfo, CrateInfoView};
use crate::render::{
    collect_highlight_spans, spec_highlighted_lines, spec_lines_with_endings, spec_plain_lines,
    span_keys, write_highlighted_lines, write_plain_lines, Span,
};
use crate::style::{
    cd_views, generate_css_classes, html_escape, spec_class_table, spec_css_classes, spec_escape,
    ClassDef, ClassDefView,
};
use crate::strutil::{hex_digit, spec_dec, spec_hex2, u64_to_dec, u8_to_hex2};

verus! {

/// A font size in tenths of a point, written as CSS prints it: the whole
/// points, and the tenths digit only when it is not zero.
pub open spec fn spec_font_text(tenths: int) -> Seq<char> {
    if tenths % 10 == 0 {
        spec_dec(tenths / 10)
    } else {
        spec_dec(tenths / 10) + "."@ + seq![hex_digit(tenths % 10)]
    }
}

/// Writes a font size held in tenths of a point.
pub fn font_text(tenths: u32) -> (r: String)
    ensures
        r@ == spec_font_text(tenths as int),
{
    let whole = u64_to_dec((tenths / 10) as u64);
    if tenths % 10 == 0 {
        whole
    } else {
        let mut out = whole;
        out.append(".");
        let frac = u64_to_dec((tenths % 10) as u64);
        proof {
            reveal_strlit(".");
            assert(frac@ == seq![hex_digit(tenths as int % 10)]);
        }
        out.append(frac.as_str());
        proof {
            assert(out@ =~= spec_font_text(tenths as int));
        }
        out
    }
}

/// A color as CSS hex notation, or the given default when absent.
pub open spec fn spec_color_or(c: Option<(u8, u8, u8)>, dflt: Seq<char>) -> Seq<char> {
    match c {
        Some(t) => "#"@ + spec_hex2(t.0 as int) + spec_hex2(t.1 as int) + spec_hex2(t.2 as int),
        None => dflt,
    }
}

/// Writes a color as CSS hex notation, falling back to a default.
pub fn color_or(c: Option<(u8, u8, u8)>, dflt: &str) -> (r: String)
    ensures
        r@ == spec_color_or(c, dflt@),
{
    match c {
        Some(t) => {
            let mut out = "#".to_owned();
            out.append(u8_to_hex2(t.0).as_str());
            out.append(u8_to_hex2(t.1).as_str());
            out.append(u8_to_hex2(t.2).as_str());
            proof {
                assert(out@ =~= spec_color_or(c, dflt@));
            }
            out
        },
        None => dflt.to_owned(),
    }
}

/// The head of a single-file listing document, up to the opening of its
/// code block.
pub open spec fn spec_single_file_head(
    path: Seq<char>,
    tenths: int,
    bg: Option<(u8, u8, u8)>,
    fg: Option<(u8, u8, u8)>,
    extra_css: Seq<char>,
) -> Seq<char> {
    "<!DOCTYPE html>\n<html lang=\"en\">\n<head>\n    <meta charset=\"UTF-8\">\n    <title>"@
        + spec_escape(path)
        + "</title>\n    <style>\n        * {\n            box-sizing: border-box;\n            margin: 0;\n            padding: 0;\n        }\n\n        body {\n            font-family: 'RobotoMono', monospace;\n            font-size: "@
        + spec_font_text(tenths)
        + "pt;\n            line-height: 1.2;\n            background-color: "@ + spec_color_or(
        bg,
        "#ffffff"@,
    ) + ";\n            color: "@ + spec_color_or(fg, "#000000"@)
        + ";\n        }\n\n        .file-header {\n            background-color: #e0e0e0;\n            color: #333;\n            padding: 2px 5px;\n            font-weight: bold;\n            font-size: "@
        + spec_font_text(tenths + 10)
        + "pt;\n            border-bottom: 1px solid #999;\n        }\n\n        .code-block {\n            white-space: pre-wrap;\n            word-wrap: break-word;\n            font-size: "@
        + spec_font_text(tenths)
        + "pt;\n            font-family: 'RobotoMono', monospace;\n            line-height: 1.15;\n        }\n\n        .line {\n            display: block;\n        }\n\n        .line-number {\n            display: inline-block;\n            width: 2.5em;\n            text-align: right;\n            padding-right: 0.5em;\n            color: #888;\n            font-size: "@
        + spec_font_text(tenths)
        + "pt;\n        }\n\n        .line-content {\n            display: inline;\n        }\n"@
        + extra_css + "    </style>\n</head>\n<body>\n<div class=\"file-header\">"@ + spec_escape(
        path,
    ) + "</div>\n<pre class=\"code-block\">"@
}

/// A full single-file listing document around an already-written body.
pub open spec fn spec_single_file_doc(
    path: Seq<char>,
    body: Seq<char>,
    extra_css: Seq<char>,
    tenths: int,
    bg: Option<(u8, u8, u8)>,
    fg: Option<(u8, u8, u8)>,
) -> Seq<char> {
    spec_single_file_head(path, tenths, bg, fg, extra_css) + body + "</pre>\n</body>\n</html>"@
}

/// Writes the head of a single-file listing document.
fn push_single_file_head(
    out: &mut String,
    path: &str,
    tenths: u32,
    bg: Option<(u8, u8, u8)>,
    fg: Option<(u8, u8, u8)>,
    extra_css: &str,
)
    requires
        tenths + 10 <= u32::MAX,
    ensures
        final(out)@ == old(out)@ + spec_single_file_head(path@, tenths as int, bg, fg, extra_css@),
{
    out.append("<!DOCTYPE html>\n<html lang=\"en\">\n<head>\n    <meta charset=\"UTF-8\">\n    <title>");
    let escaped_path = html_escape(path);
    out.append(escaped_path.as_str());
    out.append("</title>\n    <style>\n        * {\n            box-sizing: border-box;\n            margin: 0;\n            padding: 0;\n        }\n\n        body {\n            font-family: 'RobotoMono', monospace;\n            font-size: ");
    let fs = font_text(tenths);
    out.append(fs.as_str());
    out.append("pt;\n            line-height: 1.2;\n            background-color: ");
    let bg_text = color_or(bg, "#ffffff");
    out.append(bg_text.as_str());
    out.append(";\n            color: ");
    let fg_text = color_or(fg, "#000000");
    out.append(fg_text.as_str());
    out.append(";\n        }\n\n        .file-header {\n            background-color: #e0e0e0;\n            color: #333;\n            padding: 2px 5px;\n            font-weight: bold;\n            font-size: ");
    let hs = font_text(tenths + 10);
    out.append(hs.as_str());
    out.append("pt;\n            border-bottom: 1px solid #999;\n        }\n\n        .code-block {\n            white-space: pre-wrap;\n            word-wrap: break-word;\n            font-size: ");
    out.append(fs.as_str());
    out.append("pt;\n            font-family: 'RobotoMono', monospace;\n            line-height: 1.15;\n        }\n\n        .line {\n            display: block;\n        }\n\n        .line-number {\n            display: inline-block;\n            width: 2.5em;\n            text-align: right;\n            padding-right: 0.5em;\n            color: #888;\n            font-size: ");
    out.append(fs.as_str());
    out.append("pt;\n        }\n\n        .line-content {\n            display: inline;\n        }\n");
    out.append(extra_css);
    out.append("    </style>\n</head>\n<body>\n<div class=\"file-header\">");
    out.append(escaped_path.as_str());
    out.append("</div>\n<pre class=\"code-block\">");
    proof {
        assert(out@ =~= old(out)@ + spec_single_file_head(
            path@,
            tenths as int,
            bg,
            fg,
            extra_css@,
        ));
    }
}

/// A plain (unhighlighted) single-file listing document.
pub open spec fn spec_single_file_plain(path: Seq<char>, content: Seq<char>, tenths: int) -> Seq<
    char,
> {
    spec_single_file_doc(
        path,
        spec_plain_lines(
            spec_lines_with_endings(content),
            spec_lines_with_endings(content).len() as int,
        ),
        spec_css_classes(Seq::<ClassDefView>::empty()),
        tenths,
        None,
        None,
    )
}

/// Renders one file's content into a complete listing document.  With a
/// theme, each line is tokenized into styled spans whose distinct style
/// combinations share a small palette of named classes declared in the
/// document head; without one, the output is plain escaped text with
/// line numbers.
pub fn generate_html_for_single_file(
    relative_path: &str,
    content: &str,
    syntax_set: &syntect::parsing::SyntaxSet,
    theme: Option<&syntect::highlighting::Theme>,
    font_size_tenths: u32,
) -> (r: String)
    requires
        font_size_tenths + 10 <= u32::MAX,
    ensures
        theme is None ==> r@ == spec_single_file_plain(
            relative_path@,
            content@,
            font_size_tenths as int,
        ),
        theme is Some ==> exists|lines: Seq<Vec<Span>>, table: Seq<ClassDefView>, colors: (
            Option<(u8, u8, u8)>,
            Option<(u8, u8, u8)>,
        )|
            {
                &&& table == spec_class_table(span_keys(lines))
                &&& lines.len() == spec_lines_with_endings(content@).len()
                &&& r@ == spec_single_file_doc(
                    relative_path@,
                    spec_highlighted_lines(lines, lines.len() as int, table),
                    spec_css_classes(table),
                    font_size_tenths as int,
                    colors.0,
                    colors.1,
                )
            },
{
    match theme {
        Some(t) => {
            let (bg, fg) = crate::render::theme_colors_of(t);
            let (all_lines, table) = collect_highlight_spans(content, syntax_set, t);
            let extra_css = generate_css_classes(&table);
            let mut out = String::new();
            push_single_file_head(&mut out, relative_path, font_size_tenths, bg, fg, extra_css.as_str());
            write_highlighted_lines(&mut out, &all_lines, &table);
            out.append("</pre>\n</body>\n</html>");
            proof {
                let lines_w = all_lines@;
                let table_w = cd_views(table@);
                let colors_w = (bg, fg);
                assert(out@ =~= spec_single_file_doc(
                    relative_path@,
                    spec_highlighted_lines(lines_w, lines_w.len() as int, table_w),
                    spec_css_classes(table_w),
                    font_size_tenths as int,
                    colors_w.0,
                    colors_w.1,
                ));
            }
            out
        },
        None => {
            let table: Vec<ClassDef> = Vec::new();
            let extra_css = generate_css_classes(&table);
            let mut out = String::new();
            push_single_file_head(
                &mut out,
                relative_path,
                font_size_tenths,
                None,
                None,
                extra_css.as_str(),
            );
            write_plain_lines(&mut out, content);
            out.append("</pre>\n</body>\n</html>");
            proof {
                assert(cd_views(table@) =~= Seq::<ClassDefView>::empty());
                assert(out@ =~= spec_single_file_plain(
                    relative_path@,
                    content@,
                    font_size_tenths as int,
                ));
            }
            out
        },
    }
}

/// The cover page of a module: its name, version, the commit it was
/// rendered at when known, and its description when it has one.
pub open spec fn spec_title_page(
    info: CrateInfoView,
    git_hash: Option<Seq<char>>,
    tenths: int,
) -> Seq<char> {
    "<!DOCTYPE html>\n<html lang=\"en\">\n<head>\n    <meta charset=\"UTF-8\">\n    <title>"@
        + spec_escape(info.name)
        + " - Title</title>\n    <style>\n        * {\n            box-sizing: border-box;\n            margin: 0;\n            padding: 0;\n        }\n\n        body {\n            font-family: 'RobotoMono', monospace;\n            font-size: "@
        + spec_font_text(tenths)
        + "pt;\n            display: flex;\n            flex-direction: column;\n            justify-content: center;\n            align-items: center;\n            min-height: 100vh;\n            background-color: #ffffff;\n            color: #333;\n        }\n\n        .title-container {\n            text-align: center;\n            padding: 40px;\n        }\n\n        h1 {\n            font-size: 36pt;\n            margin-bottom: 20px;\n            color: #222;\n        }\n\n        .version {\n            font-size: 18pt;\n            color: #666;\n            margin-bottom: 10px;\n        }\n\n        .git-hash {\n            font-size: 12pt;\n            color: #888;\n            font-family: 'RobotoMono', monospace;\n            margin-bottom: 20px;\n        }\n\n        .description {\n            font-size: 14pt;\n            color: #555;\n            max-width: 600px;\n            line-height: 1.5;\n        }\n    </style>\n</head>\n<body>\n    <div class=\"title-container\">\n        <h1>"@
        + spec_escape(info.name) + "</h1>\n        <div class=\"version\">Version "@
        + spec_escape(info.version) + "</div>\n        "@ + spec_hash_html(git_hash)
        + "\n        "@ + spec_description_html(info.description) + "\n    </div>\n</body>\n</html>"@
}

/// The commit line of the cover page, when a commit is known.
pub open spec fn spec_hash_html(git_hash: Option<Seq<char>>) -> Seq<char> {
    match git_hash {
        Some(h) => "<div class=\"git-hash\">Commit: "@ + spec_escape(h) + "</div>"@,
        None => Seq::<char>::empty(),
    }
}

/// The description block of the cover page, when there is a description.
pub open spec fn spec_description_html(description: Option<Seq<char>>) -> Seq<char> {
    match description {
        Some(d) => "<div class=\"description\">"@ + spec_escape(d) + "</div>"@,
        None => Seq::<char>::empty(),
    }
}

/// Writes the cover page of a module.
pub fn generate_title_page_html(info: &CrateInfo, git_hash: Option<&str>, font_size_tenths: u32) -> (r:
    String)
    ensures
        r@ == spec_title_page(
            info@,
            match git_hash {
                Some(h) => Some(h@),
                None => None,
            },
            font_size_tenths as int,
        ),
{
    let mut out = String::new();
    out.append("<!DOCTYPE html>\n<html lang=\"en\">\n<head>\n    <meta charset=\"UTF-8\">\n    <title>");
    let escaped_name = html_escape(info.name.as_str());
    out.append(escaped_name.as_str());
    out.append(" - Title</title>\n    <style>\n        * {\n            box-sizing: border-box;\n            margin: 0;\n            padding: 0;\n        }\n\n        body {\n            font-family: 'RobotoMono', monospace;\n            font-size: ");
    let fs = font_text(font_size_tenths);
    out.append(fs.as_str());
    out.append("pt;\n            display: flex;\n            flex-direction: column;\n            justify-content: center;\n            align-items: center;\n            min-height: 100vh;\n            background-color: #ffffff;\n            color: #333;\n        }\n\n        .title-container {\n            text-align: center;\n            padding: 40px;\n        }\n\n        h1 {\n            font-size: 36pt;\n            margin-bottom: 20px;\n            color: #222;\n        }\n\n        .version {\n            font-size: 18pt;\n            color: #666;\n            margin-bottom: 10px;\n        }\n\n        .git-hash {\n            font-size: 12pt;\n            color: #888;\n            font-family: 'RobotoMono', monospace;\n            margin-bottom: 20px;\n        }\n\n        .description {\n            font-size: 14pt;\n            color: #555;\n            max-width: 600px;\n            line-height: 1.5;\n        }\n    </style>\n</head>\n<body>\n    <div class=\"title-container\">\n        <h1>");
    out.append(escaped_name.as_str());
    out.append("</h1>\n        <div class=\"version\">Version ");
    let escaped_version = html_escape(info.version.as_str());
    out.append(escaped_version.as_str());
    out.append("</div>\n        ");
    match git_hash {
        Some(h) => {
            out.append("<div class=\"git-hash\">Commit: ");
            let escaped_hash = html_escape(h);
            out.append(escaped_hash.as_str());
            out.append("</div>");
        },
        None => {},
    }
    out.append("\n        ");
    match &info.description {
        Some(d) => {
            out.append("<div class=\"description\">");
            let escaped_desc = html_escape(d.as_str());
            out.append(escaped_desc.as_str());
            out.append("</div>");
        },
        None => {},
    }
    out.append("\n    </div>\n</body>\n</html>");
    proof {
        assert(out@ =~= spec_title_page(
            info@,
            match git_hash {
                Some(h) => Some(h@),
                None => None,
            },
            font_size_tenths as int,
        ));
    }
    out
}

/// The column CSS of the per-module document: present only when more
/// than one column is asked for.
pub open spec fn spec_column_css(columns: int) -> Seq<char> {
    if columns > 1 {
        "\n        .content {\n            column-count: "@ + spec_dec(columns)
            + ";\n            column-gap: 10px;\n            column-rule: 1px solid #ddd;\n        }"@
    } else {
        Seq::<char>::empty()
    }
}

/// The page-break declaration of a file section, when each file starts a
/// new page.
pub open spec fn spec_page_break_css(page_break: bool) -> Seq<char> {
    if page_break {
        "page-break-after: always;"@
    } else {
        Seq::<char>::empty()
    }
}

/// The description paragraph of the per-module header, when the module
/// has a description.
pub open spec fn spec_description_para(description: Option<Seq<char>>) -> Seq<char> {
    match description {
        Some(d) => "<p>"@ + spec_escape(d) + "</p>"@,
        None => Seq::<char>::empty(),
    }
}

/// The head and opening body of the per-module document.
pub open spec fn spec_crate_header(
    info: CrateInfoView,
    tenths: int,
    columns: int,
    colors: (Option<(u8, u8, u8)>, Option<(u8, u8, u8)>),
    page_break: bool,
) -> Seq<char> {
    "<!DOCTYPE html>\n<html lang=\"en\">\n<head>\n    <meta charset=\"UTF-8\">\n    <title>"@
        + spec_escape(info.name)
        + " - Code Review</title>\n    <style>\n        * {\n            box-sizing: border-box;\n            margin: 0;\n            padding: 0;\n        }\n\n        body {\n            font-family: 'RobotoMono', monospace;\n            font-size: "@
        + spec_font_text(tenths)
        + "pt;\n            line-height: 1.2;\n            background-color: "@ + spec_color_or(
        colors.0,
        "#ffffff"@,
    ) + ";\n            color: "@ + spec_color_or(colors.1, "#000000"@) + ";\n        }\n        "@
        + spec_column_css(columns)
        + "\n        .file-section {\n            margin-bottom: 5px;\n            "@
        + spec_page_break_css(page_break)
        + "\n        }\n\n        .file-header {\n            background-color: #e0e0e0;\n            color: #333;\n            padding: 2px 5px;\n            font-weight: bold;\n            font-size: "@
        + spec_font_text(tenths + 10)
        + "pt;\n            border-bottom: 1px solid #999;\n        }\n\n        .code-block {\n            white-space: pre-wrap;\n            word-wrap: break-word;\n            font-size: "@
        + spec_font_text(tenths)
        + "pt;\n            font-family: 'RobotoMono', monospace;\n            line-height: 1.15;\n        }\n\n        .line {\n            display: block;\n        }\n\n        .line-number {\n            display: inline-block;\n            width: 2.5em;\n            text-align: right;\n            padding-right: 0.5em;\n            color: #888;\n            font-size: "@
        + spec_font_text(tenths)
        + "pt;\n        }\n\n        .line-content {\n            display: inline;\n        }\n\n        h1 {\n            font-size: 18pt;\n            padding: 8px;\n            background-color: #333;\n            color: white;\n        }\n\n        .crate-info {\n            padding: 8px;\n            background-color: #f0f0f0;\n            margin-bottom: 10px;\n            border-left: 3px solid #333;\n        }\n\n        .crate-info p {\n            margin: 2px 0;\n            font-size: 9pt;\n            color: #555;\n        }\n    </style>\n</head>\n<body>\n    <h1>"@
        + spec_escape(info.name) + " v"@ + spec_escape(info.version)
        + "</h1>\n    <div class=\"crate-info\">\n        <p><b>"@ + spec_escape(info.name)
        + "</b> - Version "@ + spec_escape(info.version) + "</p>\n        "@
        + spec_description_para(info.description) + "\n    </div>\n"@
}

/// Writes the head and opening body of the per-module document.
pub fn generate_html_header(
    info: &CrateInfo,
    font_size_tenths: u32,
    columns: u32,
    colors: (Option<(u8, u8, u8)>, Option<(u8, u8, u8)>),
    page_break: bool,
) -> (r: String)
    requires
        font_size_tenths + 10 <= u32::MAX,
    ensures
        r@ == spec_crate_header(
            info@,
            font_size_tenths as int,
            columns as int,
            colors,
            page_break,
        ),
{
    let mut out = String::new();
    out.append("<!DOCTYPE html>\n<html lang=\"en\">\n<head>\n    <meta charset=\"UTF-8\">\n    <title>");
    let escaped_name = html_escape(info.name.as_str());
    out.append(escaped_name.as_str());
    out.append(" - Code Review</title>\n    <style>\n        * {\n            box-sizing: border-box;\n            margin: 0;\n            padding: 0;\n        }\n\n        body {\n            font-family: 'RobotoMono', monospace;\n            font-size: ");
    let fs = font_text(font_size_tenths);
    out.append(fs.as_str());
    out.append("pt;\n            line-height: 1.2;\n            background-color: ");
    let bg_text = color_or(colors.0, "#ffffff");
    out.append(bg_text.as_str());
    out.append(";\n            color: ");
    let fg_text = color_or(colors.1, "#000000");
    out.append(fg_text.as_str());
    out.append(";\n        }\n        ");
    if columns > 1 {
        out.append("\n        .content {\n            column-count: ");
        let cols = u64_to_dec(columns as u64);
        out.append(cols.as_str());
        out.append(";\n            column-gap: 10px;\n            column-rule: 1px solid #ddd;\n        }");
    }
    out.append("\n        .file-section {\n            margin-bottom: 5px;\n            ");
    if page_break {
        out.append("page-break-after: always;");
    }
    out.append("\n        }\n\n        .file-header {\n            background-color: #e0e0e0;\n            color: #333;\n            padding: 2px 5px;\n            font-weight: bold;\n            font-size: ");
    let hs = font_text(font_size_tenths + 10);
    out.append(hs.as_str());
    out.append("pt;\n            border-bottom: 1px solid #999;\n        }\n\n        .code-block {\n            white-space: pre-wrap;\n            word-wrap: break-word;\n            font-size: ");
    out.append(fs.as_str());
    out.append("pt;\n            font-family: 'RobotoMono', monospace;\n            line-height: 1.15;\n        }\n\n        .line {\n            display: block;\n        }\n\n        .line-number {\n            display: inline-block;\n            width: 2.5em;\n            text-align: right;\n            padding-right: 0.5em;\n            color: #888;\n            font-size: ");
    out.append(fs.as_str());
    out.append("pt;\n        }\n\n        .line-content {\n            display: inline;\n        }\n\n        h1 {\n            font-size: 18pt;\n            padding: 8px;\n            background-color: #333;\n            color: white;\n        }\n\n        .crate-info {\n            padding: 8px;\n            background-color: #f0f0f0;\n            margin-bottom: 10px;\n            border-left: 3px solid #333;\n        }\n\n        .crate-info p {\n            margin: 2px 0;\n            font-size: 9pt;\n            color: #555;\n        }\n    </style>\n</head>\n<body>\n    <h1>");
    out.append(escaped_name.as_str());
    out.append(" v");
    let escaped_version = html_escape(info.version.as_str());
    out.append(escaped_version.as_str());
    out.append("</h1>\n    <div class=\"crate-info\">\n        <p><b>");
    out.append(escaped_name.as_str());
    out.append("</b> - Version ");
    out.append(escaped_version.as_str());
    out.append("</p>\n        ");
    match &info.description {
        Some(d) => {
            out.append("<p>");
            let escaped_desc = html_escape(d.as_str());
            out.append(escaped_desc.as_str());
            out.append("</p>");
        },
        None => {},
    }
    out.append("\n    </div>\n");
    proof {
        assert(out@ =~= spec_crate_header(
            info@,
            font_size_tenths as int,
            columns as int,
            colors,
            page_break,
        ));
    }
    out
}

/// A file section of the per-module document around an already-written
/// body of lines.
pub open spec fn spec_file_section(rel: Seq<char>, body: Seq<char>) -> Seq<char> {
    "<div class=\"file-section\">\n<div class=\"file-header\">"@ + spec_escape(rel)
        + "</div>\n<pre class=\"code-block\">"@ + body + "</pre>\n</div>\n"@
}

/// A file section holding the content as plain numbered lines.
pub open spec fn spec_file_section_plain(rel: Seq<char>, content: Seq<char>) -> Seq<char> {
    spec_file_section(
        rel,
        spec_plain_lines(
            spec_lines_with_endings(content),
            spec_lines_with_endings(content).len() as int,
        ),
    )
}

/// Renders one file's content into its section of the per-module
/// document; tokenization failure on a line degrades that line to
/// unstyled text, never the file.
pub fn generate_html_for_file(
    relative_path: &str,
    content: &str,
    syntax_set: &syntect::parsing::SyntaxSet,
    theme: Option<&syntect::highlighting::Theme>,
) -> (r: String)
    ensures
        theme is None ==> r@ == spec_file_section_plain(relative_path@, content@),
        theme is Some ==> is_themed_section((relative_path@, content@), r@),
{
    let mut out = String::new();
    out.append("<div class=\"file-section\">\n<div class=\"file-header\">");
    let escaped_rel = html_escape(relative_path);
    out.append(escaped_rel.as_str());
    out.append("</div>\n<pre class=\"code-block\">");
    match theme {
        Some(t) => {
            let (all_lines, table) = collect_highlight_spans(content, syntax_set, t);
            write_highlighted_lines(&mut out, &all_lines, &table);
            out.append("</pre>\n</div>\n");
            proof {
                let lines_w = all_lines@;
                let table_w = cd_views(table@);
                assert(out@ =~= spec_file_section(
                    relative_path@,
                    spec_highlighted_lines(lines_w, lines_w.len() as int, table_w),
                ));
                let fpair = ((relative_path@, content@));
                assert(out@ == spec_file_section(
                    fpair.0,
                    spec_highlighted_lines(lines_w, lines_w.len() as int, table_w),
                ));
                assert(lines_w.len() == spec_lines_with_endings(fpair.1).len());
                assert(is_themed_section(fpair, out@));
            }
        },
        None => {
            write_plain_lines(&mut out, content);
            out.append("</pre>\n</div>\n");
            proof {
                assert(out@ =~= spec_file_section_plain(relative_path@, content@));
            }
        },
    }
    out
}

/// The plain file sections of the first `k` files, concatenated; each
/// pair holds a file's relative path and its content.
pub open spec fn spec_plain_sections(files: Seq<(Seq<char>, Seq<char>)>, k: int) -> Seq<char>
    decreases k,
{
    if k <= 0 {
        Seq::<char>::empty()
    } else {
        spec_plain_sections(files, k - 1) + spec_file_section_plain(
            files[k - 1].0,
            files[k - 1].1,
        )
    }
}

/// The whole per-module document, without highlighting: header, the file
/// sections in order (wrapped in a column container when more than one
/// column is asked for), and the closing tags.
pub open spec fn spec_crate_html_plain(
    info: CrateInfoView,
    files: Seq<(Seq<char>, Seq<char>)>,
    tenths: int,
    columns: int,
    page_break: bool,
) -> Seq<char> {
    let open_div: Seq<char> = if columns > 1 {
        "<div class=\"content\">\n"@
    } else {
        Seq::<char>::empty()
    };
    let close_div: Seq<char> = if columns > 1 {
        "</div>\n"@
    } else {
        Seq::<char>::empty()
    };
    spec_crate_header(info, tenths, columns, (None, None), page_break) + open_div
        + spec_plain_sections(files, files.len() as int) + close_div + "</body>\n</html>"@
}

/// The relative path and content of each listed file.
pub open spec fn file_pair_views(files: Seq<(String, String)>) -> Seq<(Seq<char>, Seq<char>)> {
    files.map_values(|p: (String, String)| (p.0@, p.1@))
}

/// Whether one section is a themed file section of one file: the file's
/// relative path around highlighted lines, one span list per line of the
/// file's content, the palette naming the spans' keys.
pub open spec fn is_themed_section(file: (Seq<char>, Seq<char>), sec: Seq<char>) -> bool {
    exists|lines: Seq<Vec<Span>>, table: Seq<ClassDefView>|
        {
            &&& table == spec_class_table(span_keys(lines))
            &&& lines.len() == spec_lines_with_endings(file.1).len()
            &&& sec == #[trigger] spec_file_section(
                file.0,
                spec_highlighted_lines(lines, lines.len() as int, table),
            )
        }
}

/// Extending a good section list with one more themed file section.
proof fn lemma_themed_sections_push(
    files: Seq<(Seq<char>, Seq<char>)>,
    sections: Seq<Seq<char>>,
    f: (Seq<char>, Seq<char>),
    sec: Seq<char>,
)
    requires
        themed_sections_ok(files, sections),
        is_themed_section(f, sec),
    ensures
        themed_sections_ok(files.push(f), sections.push(sec)),
{
    assert forall|i: int|
        0 <= i < files.push(f).len() implies #[trigger] is_themed_section(
        files.push(f)[i],
        sections.push(sec)[i],
    ) by {
        if i < files.len() {
            assert(files.push(f)[i] == files[i]);
            assert(sections.push(sec)[i] == sections[i]);
            assert(is_themed_section(files[i], sections[i]));
        } else {
            assert(files.push(f)[i] == f);
            assert(sections.push(sec)[i] == sec);
        }
    }
}

/// The first `k` sections, concatenated.
pub open spec fn spec_concat_sections(sections: Seq<Seq<char>>, k: int) -> Seq<char>
    decreases k,
{
    if k <= 0 {
        Seq::<char>::empty()
    } else {
        spec_concat_sections(sections, k - 1) + sections[k - 1]
    }
}

/// Whether each section is a themed file section of its file.
pub open spec fn themed_sections_ok(
    files: Seq<(Seq<char>, Seq<char>)>,
    sections: Seq<Seq<char>>,
) -> bool {
    &&& sections.len() == files.len()
    &&& forall|i: int|
        0 <= i < files.len() ==> #[trigger] is_themed_section(files[i], sections[i])
}

/// Renders a whole module into one document: the header, then every
/// file's section in the given order, then the closing tags.  Each pair
/// holds a file's relative path and its content.
pub fn generate_html_for_crate(
    info: &CrateInfo,
    files: &Vec<(String, String)>,
    syntax_set: &syntect::parsing::SyntaxSet,
    theme: Option<&syntect::highlighting::Theme>,
    font_size_tenths: u32,
    columns: u32,
    page_break: bool,
) -> (r: String)
    requires
        font_size_tenths + 10 <= u32::MAX,
    ensures
        theme is None ==> r@ == spec_crate_html_plain(
            info@,
            file_pair_views(files@),
            font_size_tenths as int,
            columns as int,
            page_break,
        ),
        theme is Some ==> exists|colors: (Option<(u8, u8, u8)>, Option<(u8, u8, u8)>), sections: Seq<Seq<char>>|
            {
                &&& themed_sections_ok(file_pair_views(files@), sections)
                &&& r@ == spec_crate_header(
                    info@,
                    font_size_tenths as int,
                    columns as int,
                    colors,
                    page_break,
                ) + (if columns > 1 {
                    "<div class=\"content\">\n"@
                } else {
                    Seq::<char>::empty()
                }) + spec_concat_sections(sections, sections.len() as int) + (if columns > 1 {
                    "</div>\n"@
                } else {
                    Seq::<char>::empty()
                }) + "</body>\n</html>"@
            },
        crate::strutil::has_suffix(r@, "</body>\n</html>"@),
{
    let colors: (Option<(u8, u8, u8)>, Option<(u8, u8, u8)>) = match theme {
        Some(t) => crate::render::theme_colors_of(t),
        None => (None, None),
    };
    let mut out = generate_html_header(info, font_size_tenths, columns, colors, page_break);
    if columns > 1 {
        out.append("<div class=\"content\">\n");
    }
    let ghost fv = file_pair_views(files@);
    let n = files.len();
    let mut i: usize = 0;
    let ghost sections_start = out@;
    let ghost mut sections: Seq<Seq<char>> = Seq::<Seq<char>>::empty();
    proof {
        assert(sections_start + spec_plain_sections(fv, 0) =~= sections_start);
        assert(sections_start + spec_concat_sections(sections, 0) =~= sections_start);
        assert(themed_sections_ok(fv.take(0), sections));
    }
    while i < n
        invariant
            n == files@.len(),
            fv == file_pair_views(files@),
            i <= n,
            theme is None ==> out@ == sections_start + spec_plain_sections(fv, i as int),
            theme is Some ==> {
                &&& sections.len() == i
                &&& themed_sections_ok(fv.take(i as int), sections)
                &&& out@ == sections_start + spec_concat_sections(sections, i as int)
            },
        decreases n - i,
    {
        proof {
            assert(fv[i as int] == (files@[i as int].0@, files@[i as int].1@));
        }
        let rel = files[i].0.as_str();
        let file_content = files[i].1.as_str();
        let section = generate_html_for_file(rel, file_content, syntax_set, theme);
        out.append(section.as_str());
        proof {
            if theme is None {
                assert(out@ =~= sections_start + spec_plain_sections(fv, i + 1));
            } else {
                let before = sections;
                sections = sections.push(section@);
                lemma_concat_sections_prefix(before, sections, i as int);
                assert(spec_concat_sections(sections, i + 1) =~= spec_concat_sections(
                    before,
                    i as int,
                ) + section@);
                assert(fv[i as int] == (rel@, file_content@));
                assert(is_themed_section(fv[i as int], section@));
                lemma_themed_sections_push(fv.take(i as int), before, fv[i as int], section@);
                assert(fv.take(i as int).push(fv[i as int]) =~= fv.take(i + 1));
                assert(themed_sections_ok(fv.take(i + 1), sections));
                assert(out@ =~= sections_start + spec_concat_sections(sections, i + 1));
            }
        }
        i = i + 1;
    }
    if columns > 1 {
        out.append("</div>\n");
    }
    out.append("</body>\n</html>");
    proof {
        if theme is None {
            assert(out@ =~= spec_crate_html_plain(
                info@,
                fv,
                font_size_tenths as int,
                columns as int,
                page_break,
            ));
        } else {
            assert(fv.take(n as int) =~= fv);
            assert(themed_sections_ok(fv, sections));
            assert(out@ =~= spec_crate_header(
                info@,
                font_size_tenths as int,
                columns as int,
                colors,
                page_break,
            ) + (if columns > 1 {
                "<div class=\"content\">\n"@
            } else {
                Seq::<char>::empty()
            }) + spec_concat_sections(sections, sections.len() as int) + (if columns > 1 {
                "</div>\n"@
            } else {
                Seq::<char>::empty()
            }) + "</body>\n</html>"@);
        }
        assert(out@.skip(out@.len() - "</body>\n</html>"@.len()) =~= "</body>\n</html>"@);
    }
    out
}

/// A shared prefix concatenates alike.
proof fn lemma_concat_sections_prefix(a: Seq<Seq<char>>, b: Seq<Seq<char>>, k: int)
    requires
        k <= a.len(),
        k <= b.len(),
        forall|i: int| 0 <= i < k ==> a[i] == b[i],
    ensures
        spec_concat_sections(a, k) == spec_concat_sections(b, k),
    decreases k,
{
    if k > 0 {
        lemma_concat_sections_prefix(a, b, k - 1);
    }
}

} // verus!
