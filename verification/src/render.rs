//! Listing rendering: one source file's content to styled HTML markup.
//!
//! Line splitting, escaping, line numbering, the class palette and every
//! template are verified; only the tokenizer itself — syntect — sits
//! behind trusted wrappers, and everything done with the spans it returns
//! is verified for every possible value of them.

use vstd::prelude::*;

use crate::style::{
    cd_views, class_lookup, html_escape, spec_class_table, spec_escape, table_note_key, ClassDef,
    ClassDefView, StyleKey,
};
use crate::strutil::{spec_dec, u64_to_dec};

verus! {

#[verifier::external_type_specification]
#[verifier::external_body]
pub struct ExSyntaxSet(syntect::parsing::SyntaxSet);

#[verifier::external_type_specification]
#[verifier::external_body]
pub struct ExTheme(syntect::highlighting::Theme);

#[verifier::external_type_specification]
#[verifier::external_body]
pub struct ExThemeSet(syntect::highlighting::ThemeSet);

#[verifier::external_type_specification]
#[verifier::external_body]
pub struct ExHighlightLines<'a>(syntect::easy::HighlightLines<'a>);

/// The names under which a theme set holds its themes.
pub uninterp spec fn theme_names_of(themes: syntect::highlighting::ThemeSet) -> Set<Seq<char>>;

/// Relies on syntect's theme set: the lookup of a name among the set's
/// themes is a map lookup, a function of the set and the name alone, and
/// finds a theme exactly when the set holds one under that name.
#[verifier::external_body]
fn find_theme<'a>(themes: &'a syntect::highlighting::ThemeSet, name: &str) -> (r: Option<
    &'a syntect::highlighting::Theme,
>)
    ensures
        r is Some <==> theme_names_of(*themes).contains(name@),
{
    themes.themes.get(name)
}

/// Relies on syntect's theme settings: the theme's background and
/// foreground colors, where the theme defines them.
#[verifier::external_body]
pub(crate) fn theme_colors_of(theme: &syntect::highlighting::Theme) -> (r: (
    Option<(u8, u8, u8)>,
    Option<(u8, u8, u8)>,
)) {
    (
        theme.settings.background.map(|c| (c.r, c.g, c.b)),
        theme.settings.foreground.map(|c| (c.r, c.g, c.b)),
    )
}

/// Relies on syntect: a fresh line highlighter for the syntax registered
/// under the given file extension, falling back to the plain-text syntax;
/// nothing when the set holds neither, so no syntax-set value can abort
/// the render.
#[verifier::external_body]
fn new_highlighter<'a>(
    syntax_set: &syntect::parsing::SyntaxSet,
    theme: &'a syntect::highlighting::Theme,
    extension: &str,
) -> Option<syntect::easy::HighlightLines<'a>> {
    let syntax = syntax_set
        .find_syntax_by_extension(extension)
        .or_else(|| syntax_set.find_syntax_by_name("Plain Text"))?;
    Some(syntect::easy::HighlightLines::new(syntax, theme))
}

/// One raw span the tokenizer hands back: the foreground color bytes,
/// the font-style bits, and the span's text.
pub type RawSpan = (u8, u8, u8, u8, u8, String);

/// The texts of raw spans, concatenated.
pub open spec fn spec_raw_texts(raw: Seq<RawSpan>) -> Seq<char>
    decreases raw.len(),
{
    if raw.len() == 0 {
        Seq::<char>::empty()
    } else {
        spec_raw_texts(raw.drop_last()) + raw.last().5@
    }
}

/// Relies on syntect's highlight_line: styles one line, handing each
/// span's foreground color, font-style bits and text back as plain
/// values; yields nothing when tokenization fails on the line.  Syntect
/// documents that the spans' texts concatenate to the input line.
#[verifier::external_body]
fn highlight_line_spans(
    highlighter: &mut syntect::easy::HighlightLines,
    line: &str,
    syntax_set: &syntect::parsing::SyntaxSet,
) -> (r: Option<Vec<RawSpan>>)
    ensures
        r matches Some(v) ==> spec_raw_texts(v@) == line@,
{
    match highlighter.highlight_line(line, syntax_set) {
        Ok(spans) => Some(
            spans.into_iter().map(|(st, text)| {
                let c = st.foreground;
                (c.r, c.g, c.b, c.a, st.font_style.bits(), text.to_string())
            }).collect(),
        ),
        Err(_) => None,
    }
}

/// Whether a theme name turns highlighting off: the word `none` in any
/// letter case.
pub open spec fn spec_theme_disabled(name: Seq<char>) -> bool {
    &&& name.len() == 4
    &&& (name[0] == 'n' || name[0] == 'N')
    &&& (name[1] == 'o' || name[1] == 'O')
    &&& (name[2] == 'n' || name[2] == 'N')
    &&& (name[3] == 'e' || name[3] == 'E')
}

/// Resolves a theme name: the word `none` disables highlighting; any
/// other name is looked up among the set's themes, falling back to the
/// default theme when it is unknown.
pub fn resolve_theme<'a>(themes: &'a syntect::highlighting::ThemeSet, name: &str) -> (r: Option<
    &'a syntect::highlighting::Theme,
>)
    ensures
        spec_theme_disabled(name@) ==> r is None,
        !spec_theme_disabled(name@) ==> (r is Some <==> (theme_names_of(*themes).contains(name@)
            || theme_names_of(*themes).contains("InspiredGitHub"@))),
{
    let n = name.unicode_len();
    if n == 4 {
        let c0 = name.get_char(0);
        let c1 = name.get_char(1);
        let c2 = name.get_char(2);
        let c3 = name.get_char(3);
        if (c0 == 'n' || c0 == 'N') && (c1 == 'o' || c1 == 'O') && (c2 == 'n' || c2 == 'N') && (c3
            == 'e' || c3 == 'E') {
            return None;
        }
    }
    match find_theme(themes, name) {
        Some(t) => Some(t),
        None => find_theme(themes, "InspiredGitHub"),
    }
}

/// The content split after every line break, the break kept at the end
/// of its line; empty content has no lines.
pub open spec fn spec_lines_with_endings(s: Seq<char>) -> Seq<Seq<char>>
    decreases s.len(),
{
    if s.len() == 0 {
        Seq::<Seq<char>>::empty()
    } else if s[0] == '\n' {
        seq![seq!['\n']] + spec_lines_with_endings(s.drop_first())
    } else {
        let rest = spec_lines_with_endings(s.drop_first());
        if rest.len() == 0 {
            seq![seq![s[0]]]
        } else {
            seq![seq![s[0]] + rest[0]] + rest.drop_first()
        }
    }
}

/// The lines of a buffer without breaks followed by further text.
spec fn shift_lines(pre: Seq<char>, ls: Seq<Seq<char>>) -> Seq<Seq<char>> {
    if ls.len() == 0 {
        if pre.len() == 0 {
            Seq::<Seq<char>>::empty()
        } else {
            seq![pre]
        }
    } else {
        seq![pre + ls[0]] + ls.drop_first()
    }
}

/// Splits text into its lines, each keeping its line break.
pub fn split_lines(s: &str) -> (r: Vec<String>)
    ensures
        r.deep_view() == spec_lines_with_endings(s@),
{
    let n = s.unicode_len();
    let mut done: Vec<String> = Vec::new();
    let mut cur = String::new();
    let mut i: usize = 0;
    proof {
        assert(s@.skip(0) =~= s@);
        assert(done.deep_view() =~= Seq::<Seq<char>>::empty());
        assert(cur@ =~= Seq::<char>::empty());
        assert(shift_lines(cur@, spec_lines_with_endings(s@)) =~= spec_lines_with_endings(s@));
    }
    while i < n
        invariant
            n == s@.len(),
            i <= n,
            spec_lines_with_endings(s@) =~= done.deep_view() + shift_lines(
                cur@,
                spec_lines_with_endings(s@.skip(i as int)),
            ),
        decreases n - i,
    {
        proof {
            assert(s@.skip(i as int)[0] == s@[i as int]);
            assert(s@.skip(i as int).drop_first() =~= s@.skip(i + 1));
        }
        let c = s.get_char(i);
        let piece = s.substring_char(i, i + 1);
        proof {
            assert(piece@ =~= seq![s@[i as int]]);
        }
        let ghost old_cur = cur@;
        cur.append(piece);
        if c == '\n' {
            let ghost old_done = done.deep_view();
            done.push(cur);
            cur = String::new();
            proof {
                assert(done.deep_view() =~= old_done.push(old_cur + seq!['\n']));
                let ls = spec_lines_with_endings(s@.skip(i as int));
                let ls2 = spec_lines_with_endings(s@.skip(i + 1));
                assert(ls =~= seq![seq!['\n']] + ls2);
                assert(ls[0] =~= seq!['\n']);
                assert(old_cur + ls[0] =~= old_cur + seq!['\n']);
                assert(shift_lines(Seq::<char>::empty(), ls2) =~= ls2);
                assert(old_done + shift_lines(old_cur, ls) =~= done.deep_view() + shift_lines(
                    cur@,
                    ls2,
                ));
            }
        } else {
            proof {
                let ls = spec_lines_with_endings(s@.skip(i as int));
                let ls2 = spec_lines_with_endings(s@.skip(i + 1));
                if ls2.len() == 0 {
                    assert(ls =~= seq![seq![s@[i as int]]]);
                    assert(shift_lines(old_cur, ls) =~= seq![old_cur + seq![s@[i as int]]]);
                    assert(cur@ =~= old_cur + seq![s@[i as int]]);
                    assert(shift_lines(cur@, ls2) =~= seq![cur@]);
                } else {
                    assert(ls =~= seq![seq![s@[i as int]] + ls2[0]] + ls2.drop_first());
                    assert(ls[0] =~= seq![s@[i as int]] + ls2[0]);
                    assert(old_cur + ls[0] =~= cur@ + ls2[0]);
                    assert(shift_lines(old_cur, ls) =~= shift_lines(cur@, ls2));
                }
            }
        }
        i = i + 1;
    }
    proof {
        assert(s@.skip(n as int) =~= Seq::<char>::empty());
    }
    if cur.unicode_len() > 0 {
        let ghost old_done = done.deep_view();
        let ghost last = cur@;
        done.push(cur);
        proof {
            assert(done.deep_view() =~= old_done.push(last));
            assert(shift_lines(last, Seq::<Seq<char>>::empty()) =~= seq![last]);
            assert(done.deep_view() =~= old_done + seq![last]);
        }
    } else {
        proof {
            assert(shift_lines(cur@, Seq::<Seq<char>>::empty()) =~= Seq::<Seq<char>>::empty());
            assert(done.deep_view() + Seq::<Seq<char>>::empty() =~= done.deep_view());
        }
    }
    done
}

/// One span of a highlighted line: its style key and its text.
pub type Span = (StyleKey, String);

/// The style keys of one line's spans, in order.
pub open spec fn line_keys(line: Seq<Span>) -> Seq<StyleKey> {
    line.map_values(|p: Span| p.0)
}

/// The style keys of all spans of the first `k` lines, in reading order.
pub open spec fn span_keys(lines: Seq<Vec<Span>>) -> Seq<StyleKey>
    decreases lines.len(),
{
    if lines.len() == 0 {
        Seq::<StyleKey>::empty()
    } else {
        span_keys(lines.drop_last()) + line_keys(lines.last()@)
    }
}

/// The style key a failed line falls back to: the engine's default
/// style, black text without font styles.
pub open spec fn fallback_key() -> StyleKey {
    StyleKey {
        fg_r: 0,
        fg_g: 0,
        fg_b: 0,
        fg_a: 255,
        bold: false,
        underline: false,
        italic: false,
    }
}

/// The style key of a raw span's color and font-style bits.
pub open spec fn key_of_parts(fg_r: u8, fg_g: u8, fg_b: u8, fg_a: u8, font_bits: u8) -> StyleKey {
    StyleKey {
        fg_r,
        fg_g,
        fg_b,
        fg_a,
        bold: font_bits & crate::style::FONT_BOLD != 0,
        underline: font_bits & crate::style::FONT_UNDERLINE != 0,
        italic: font_bits & crate::style::FONT_ITALIC != 0,
    }
}

/// The view of one raw span: its style key and its text.
pub open spec fn raw_view_fn() -> spec_fn(RawSpan) -> (StyleKey, Seq<char>) {
    |r: RawSpan| (key_of_parts(r.0, r.1, r.2, r.3, r.4), r.5@)
}

/// The view of one built span.
pub open spec fn span_view_fn() -> spec_fn(Span) -> (StyleKey, Seq<char>) {
    |p: Span| (p.0, p.1@)
}

/// The views of one line's spans.
pub open spec fn span_views(line: Seq<Span>) -> Seq<(StyleKey, Seq<char>)> {
    line.map_values(span_view_fn())
}

/// The texts of span views, concatenated.
pub open spec fn spec_pair_texts(spans: Seq<(StyleKey, Seq<char>)>) -> Seq<char>
    decreases spans.len(),
{
    if spans.len() == 0 {
        Seq::<char>::empty()
    } else {
        spec_pair_texts(spans.drop_last()) + spans.last().1
    }
}

/// The text one line's spans carry, concatenated.
pub open spec fn spec_spans_text(line: Seq<Span>) -> Seq<char> {
    spec_pair_texts(span_views(line))
}

/// The view of a tokenizer outcome.
pub open spec fn raw_outcome_view(o: Option<Vec<RawSpan>>) -> Option<Seq<RawSpan>> {
    match o {
        Some(v) => Some(v@),
        None => None,
    }
}

/// The span views one line yields from a tokenizer outcome: the raw
/// spans converted when tokenization succeeded, the single unstyled span
/// holding the whole line when it failed — a per-line failure never
/// aborts the file.
pub open spec fn spec_line_spans(line: Seq<char>, outcome: Option<Seq<RawSpan>>) -> Seq<
    (StyleKey, Seq<char>),
> {
    match outcome {
        Some(raw) => raw.map_values(raw_view_fn()),
        None => seq![(fallback_key(), line)],
    }
}

/// Converting raw spans keeps their texts.
proof fn lemma_raw_views_text(raw: Seq<RawSpan>)
    ensures
        spec_pair_texts(raw.map_values(raw_view_fn())) == spec_raw_texts(raw),
    decreases raw.len(),
{
    if raw.len() > 0 {
        lemma_raw_views_text(raw.drop_last());
        assert(raw.map_values(raw_view_fn()).drop_last() =~= raw.drop_last().map_values(
            raw_view_fn(),
        ));
        assert(raw.map_values(raw_view_fn()).last() == raw_view_fn()(raw.last()));
    }
}

/// Builds one line's spans from the tokenizer's outcome: each raw span's
/// key and text when it succeeded, the single unstyled span holding the
/// whole line when it failed.
pub fn line_spans_of(line: &String, outcome: Option<Vec<RawSpan>>) -> (r: Vec<Span>)
    ensures
        span_views(r@) == spec_line_spans(line@, raw_outcome_view(outcome)),
{
    match outcome {
        Some(raw) => {
            let m = raw.len();
            let mut out: Vec<Span> = Vec::new();
            let mut j: usize = 0;
            proof {
                assert(span_views(out@) =~= raw@.take(0).map_values(raw_view_fn()));
            }
            while j < m
                invariant
                    m == raw@.len(),
                    j <= m,
                    span_views(out@) =~= raw@.take(j as int).map_values(raw_view_fn()),
                decreases m - j,
            {
                let key = StyleKey::from_parts(raw[j].0, raw[j].1, raw[j].2, raw[j].3, raw[j].4);
                let text = raw[j].5.clone();
                let ghost before = span_views(out@);
                out.push((key, text));
                proof {
                    assert(span_views(out@) =~= before.push((key, raw@[j as int].5@)));
                    assert(raw@.take(j + 1) =~= raw@.take(j as int).push(raw@[j as int]));
                    assert(raw@.take(j + 1).map_values(raw_view_fn()) =~= raw@.take(
                        j as int,
                    ).map_values(raw_view_fn()).push(raw_view_fn()(raw@[j as int])));
                }
                j = j + 1;
            }
            proof {
                assert(raw@.take(m as int) =~= raw@);
            }
            out
        },
        None => {
            let key = StyleKey {
                fg_r: 0,
                fg_g: 0,
                fg_b: 0,
                fg_a: 255,
                bold: false,
                underline: false,
                italic: false,
            };
            let mut out: Vec<Span> = Vec::new();
            out.push((key, line.clone()));
            proof {
                assert(key == fallback_key());
                assert(span_views(out@) =~= seq![(fallback_key(), line@)]);
            }
            out
        },
    }
}

/// Tokenizes the content line by line and gathers the palette of named
/// style classes: every line yields one span list whose texts carry
/// exactly that line — a line the tokenizer fails on, or every line when
/// no syntax is available at all, degrades to a single unstyled span
/// holding the whole line — and the palette names each distinct
/// non-default key at its first appearance.
pub fn collect_highlight_spans(
    content: &str,
    syntax_set: &syntect::parsing::SyntaxSet,
    theme: &syntect::highlighting::Theme,
) -> (r: (Vec<Vec<Span>>, Vec<ClassDef>))
    ensures
        r.0@.len() == spec_lines_with_endings(content@).len(),
        cd_views(r.1@) == spec_class_table(span_keys(r.0@)),
        forall|i: int|
            0 <= i < r.0@.len() ==> spec_spans_text(#[trigger] r.0@[i]@)
                == spec_lines_with_endings(content@)[i],
{
    let lines = split_lines(content);
    let ghost lv = spec_lines_with_endings(content@);
    let mut highlighter = new_highlighter(syntax_set, theme, "rs");
    let mut out_lines: Vec<Vec<Span>> = Vec::new();
    let mut table: Vec<ClassDef> = Vec::new();
    let n = lines.len();
    let mut i: usize = 0;
    proof {
        assert(cd_views(table@) =~= spec_class_table(span_keys(out_lines@)));
        assert(lines.deep_view().len() == lv.len());
    }
    while i < n
        invariant
            n == lines@.len(),
            lv == spec_lines_with_endings(content@),
            lines.deep_view() == lv,
            i <= n,
            out_lines@.len() == i,
            cd_views(table@) == spec_class_table(span_keys(out_lines@)),
            forall|k: int| 0 <= k < i ==> spec_spans_text(#[trigger] out_lines@[k]@) == lv[k],
        decreases n - i,
    {
        proof {
            assert(lines.deep_view()[i as int] == lines@[i as int]@);
        }
        let outcome: Option<Vec<RawSpan>> = match &mut highlighter {
            Some(h) => highlight_line_spans(h, lines[i].as_str(), syntax_set),
            None => None,
        };
        let ghost ocv = raw_outcome_view(outcome);
        let spans = line_spans_of(&lines[i], outcome);
        proof {
            assert(span_views(spans@) == spec_line_spans(lv[i as int], ocv));
            match ocv {
                Some(rv) => {
                    lemma_raw_views_text(rv);
                    assert(spec_spans_text(spans@) == lv[i as int]);
                },
                None => {
                    let single = seq![(fallback_key(), lv[i as int])];
                    assert(single.drop_last() =~= Seq::<(StyleKey, Seq<char>)>::empty());
                    assert(spec_pair_texts(Seq::<(StyleKey, Seq<char>)>::empty())
                        =~= Seq::<char>::empty());
                    assert(spec_pair_texts(single) =~= Seq::<char>::empty() + single.last().1);
                    assert(spec_pair_texts(single) =~= lv[i as int]);
                    assert(spec_spans_text(spans@) == lv[i as int]);
                },
            }
        }
        let m = spans.len();
        let mut j: usize = 0;
        proof {
            assert(line_keys(spans@.take(0)) =~= Seq::<StyleKey>::empty());
            assert(span_keys(out_lines@) + line_keys(spans@.take(0)) =~= span_keys(out_lines@));
        }
        while j < m
            invariant
                m == spans@.len(),
                j <= m,
                cd_views(table@) == spec_class_table(
                    span_keys(out_lines@) + line_keys(spans@.take(j as int)),
                ),
            decreases m - j,
        {
            let key = spans[j].0;
            let ghost keys_before = span_keys(out_lines@) + line_keys(spans@.take(j as int));
            table_note_key(&mut table, key);
            proof {
                assert(spans@.take(j + 1) =~= spans@.take(j as int).push(spans@[j as int]));
                assert(line_keys(spans@.take(j + 1)) =~= line_keys(spans@.take(j as int)).push(
                    key,
                ));
                assert(span_keys(out_lines@) + line_keys(spans@.take(j + 1)) =~= keys_before.push(
                    key,
                ));
                assert(keys_before.push(key).drop_last() =~= keys_before);
                assert(cd_views(table@) == spec_class_table(keys_before.push(key)));
            }
            j = j + 1;
        }
        proof {
            assert(spans@.take(m as int) =~= spans@);
            assert(line_keys(spans@.take(m as int)) =~= line_keys(spans@));
        }
        let ghost before_lines = out_lines@;
        let ghost final_spans = spans@;
        out_lines.push(spans);
        proof {
            assert(out_lines@.drop_last() =~= before_lines);
            assert(out_lines@.last()@ == final_spans);
            assert(span_keys(out_lines@) =~= span_keys(before_lines) + line_keys(final_spans));
        }
        i = i + 1;
    }
    (out_lines, table)
}

/// The HTML of one span: escaped text, wrapped in a class span when the
/// palette names its key.
pub open spec fn spec_span_html(key: StyleKey, text: Seq<char>, table: Seq<ClassDefView>) -> Seq<
    char,
> {
    if key.spec_is_default() {
        spec_escape(text)
    } else {
        match crate::style::spec_class_lookup(table, key) {
            Some(name) => "<span class=\""@ + name + "\">"@ + spec_escape(text) + "</span>"@,
            None => spec_escape(text),
        }
    }
}

/// The HTML of the first `k` spans of a line, concatenated.
pub open spec fn spec_spans_html(spans: Seq<Span>, k: int, table: Seq<ClassDefView>) -> Seq<char>
    decreases k,
{
    if k <= 0 {
        Seq::<char>::empty()
    } else {
        spec_spans_html(spans, k - 1, table) + spec_span_html(
            spans[k - 1].0,
            spans[k - 1].1@,
            table,
        )
    }
}

/// The opening markup of one numbered line.
pub open spec fn spec_line_open(num: int) -> Seq<char> {
    "<span class=\"line\"><span class=\"line-number\">"@ + spec_dec(num)
        + "</span><span class=\"line-content\">"@
}

/// The HTML of one highlighted line.
pub open spec fn spec_highlighted_line(num: int, spans: Seq<Span>, table: Seq<ClassDefView>) -> Seq<
    char,
> {
    spec_line_open(num) + spec_spans_html(spans, spans.len() as int, table) + "</span></span>\n"@
}

/// The HTML of the first `k` highlighted lines, numbered from one.
pub open spec fn spec_highlighted_lines(
    lines: Seq<Vec<Span>>,
    k: int,
    table: Seq<ClassDefView>,
) -> Seq<char>
    decreases k,
{
    if k <= 0 {
        Seq::<char>::empty()
    } else {
        spec_highlighted_lines(lines, k - 1, table) + spec_highlighted_line(
            k,
            lines[k - 1]@,
            table,
        )
    }
}

/// Writes the highlighted lines as numbered HTML spans, using the
/// palette's class names.
pub fn write_highlighted_lines(
    html: &mut String,
    all_lines: &Vec<Vec<Span>>,
    table: &Vec<ClassDef>,
)
    ensures
        final(html)@ == old(html)@ + spec_highlighted_lines(
            all_lines@,
            all_lines@.len() as int,
            cd_views(table@),
        ),
{
    let n = all_lines.len();
    let mut i: usize = 0;
    proof {
        assert(html@ + spec_highlighted_lines(all_lines@, 0, cd_views(table@)) =~= html@);
    }
    while i < n
        invariant
            n == all_lines@.len(),
            i <= n,
            html@ == old(html)@ + spec_highlighted_lines(
                all_lines@,
                i as int,
                cd_views(table@),
            ),
        decreases n - i,
    {
        html.append("<span class=\"line\"><span class=\"line-number\">");
        let num = u64_to_dec((i as u64) + 1);
        html.append(num.as_str());
        html.append("</span><span class=\"line-content\">");
        let spans = &all_lines[i];
        let m = spans.len();
        let mut j: usize = 0;
        let ghost line_start = html@;
        while j < m
            invariant
                m == spans@.len(),
                spans == all_lines@[i as int],
                i < n,
                n == all_lines@.len(),
                j <= m,
                html@ == line_start + spec_spans_html(spans@, j as int, cd_views(table@)),
            decreases m - j,
        {
            let key = spans[j].0;
            if key.is_default() {
                let escaped = html_escape(spans[j].1.as_str());
                html.append(escaped.as_str());
            } else {
                match class_lookup(table, &key) {
                    Some(name) => {
                        html.append("<span class=\"");
                        html.append(name.as_str());
                        html.append("\">");
                        let escaped = html_escape(spans[j].1.as_str());
                        html.append(escaped.as_str());
                        html.append("</span>");
                    },
                    None => {
                        let escaped = html_escape(spans[j].1.as_str());
                        html.append(escaped.as_str());
                    },
                }
            }
            j = j + 1;
        }
        html.append("</span></span>\n");
        proof {
            assert(html@ =~= old(html)@ + spec_highlighted_lines(
                all_lines@,
                i + 1,
                cd_views(table@),
            ));
        }
        i = i + 1;
    }
}

/// The HTML of one plain (unhighlighted) numbered line.
pub open spec fn spec_plain_line(num: int, line: Seq<char>) -> Seq<char> {
    spec_line_open(num) + spec_escape(line) + "</span></span>\n"@
}

/// The HTML of the first `k` plain lines, numbered from one.
pub open spec fn spec_plain_lines(lines: Seq<Seq<char>>, k: int) -> Seq<char>
    decreases k,
{
    if k <= 0 {
        Seq::<char>::empty()
    } else {
        spec_plain_lines(lines, k - 1) + spec_plain_line(k, lines[k - 1])
    }
}

/// Writes the content's lines as plain escaped, numbered HTML spans.
pub fn write_plain_lines(html: &mut String, content: &str)
    ensures
        final(html)@ == old(html)@ + spec_plain_lines(
            spec_lines_with_endings(content@),
            spec_lines_with_endings(content@).len() as int,
        ),
{
    let lines = split_lines(content);
    let ghost lv = spec_lines_with_endings(content@);
    let n = lines.len();
    let mut i: usize = 0;
    proof {
        assert(lines.deep_view().len() == lv.len());
        assert(html@ + spec_plain_lines(lv, 0) =~= html@);
    }
    while i < n
        invariant
            n == lines@.len(),
            lv == spec_lines_with_endings(content@),
            lines.deep_view() == lv,
            i <= n,
            html@ == old(html)@ + spec_plain_lines(lv, i as int),
        decreases n - i,
    {
        proof {
            assert(lines.deep_view()[i as int] == lines@[i as int]@);
        }
        html.append("<span class=\"line\"><span class=\"line-number\">");
        let num = u64_to_dec((i as u64) + 1);
        html.append(num.as_str());
        html.append("</span><span class=\"line-content\">");
        let escaped = html_escape(lines[i].as_str());
        html.append(escaped.as_str());
        html.append("</span></span>\n");
        proof {
            assert(html@ =~= old(html)@ + spec_plain_lines(lv, i + 1));
        }
        i = i + 1;
    }
    proof {
        assert(lv.len() == n);
    }
}

} // verus!
