//! Styled-span bookkeeping: style keys, their CSS, HTML escaping, and the
//! deduplicated palette of named style classes.

use vstd::prelude::*;

use crate::sorting::{insertion_sort, key_lt_of, lemma_isort_map, spec_isort, OrderedByKey};
use crate::strutil::{
    join_strings, lex_lt, spec_dec, spec_hex2, spec_join, str_lex_lt, u8_to_hex2,
};

verus! {

/// One distinct combination of foreground color and font style.
#[derive(Clone, Copy, Debug, PartialEq, Eq, Structural)]
pub struct StyleKey {
    pub fg_r: u8,
    pub fg_g: u8,
    pub fg_b: u8,
    pub fg_a: u8,
    pub bold: bool,
    pub italic: bool,
    pub underline: bool,
}

/// The font-style bit the highlighting engine uses for bold.
pub const FONT_BOLD: u8 = 1;

/// The font-style bit the highlighting engine uses for underline.
pub const FONT_UNDERLINE: u8 = 2;

/// The font-style bit the highlighting engine uses for italic.
pub const FONT_ITALIC: u8 = 4;

impl StyleKey {
    /// Builds a key from a span's color and font-style bits.
    pub fn from_parts(fg_r: u8, fg_g: u8, fg_b: u8, fg_a: u8, font_bits: u8) -> (k: StyleKey)
        ensures
            k == (StyleKey {
                fg_r,
                fg_g,
                fg_b,
                fg_a,
                bold: font_bits & FONT_BOLD != 0,
                underline: font_bits & FONT_UNDERLINE != 0,
                italic: font_bits & FONT_ITALIC != 0,
            }),
    {
        StyleKey {
            fg_r,
            fg_g,
            fg_b,
            fg_a,
            bold: font_bits & FONT_BOLD != 0,
            underline: font_bits & FONT_UNDERLINE != 0,
            italic: font_bits & FONT_ITALIC != 0,
        }
    }

    /// A key that asks for no styling at all.
    pub open spec fn spec_is_default(self) -> bool {
        self.fg_a == 0 && !self.bold && !self.italic && !self.underline
    }

    /// Whether the key asks for no styling at all.
    pub fn is_default(&self) -> (r: bool)
        ensures
            r == self.spec_is_default(),
    {
        self.fg_a == 0 && !self.bold && !self.italic && !self.underline
    }

    /// The CSS declarations of the key, in fixed order, separated by `; `.
    pub open spec fn spec_to_css(self) -> Seq<char> {
        spec_join(spec_css_parts(self), "; "@)
    }

    /// Writes the key's CSS declarations.
    pub fn to_css(&self) -> (r: String)
        ensures
            r@ == self.spec_to_css(),
    {
        let mut parts: Vec<String> = Vec::new();
        let ghost expected = spec_css_parts(*self);
        if self.fg_a > 0 {
            let mut color = "color: #".to_owned();
            color.append(u8_to_hex2(self.fg_r).as_str());
            color.append(u8_to_hex2(self.fg_g).as_str());
            color.append(u8_to_hex2(self.fg_b).as_str());
            parts.push(color);
        }
        if self.bold {
            parts.push("font-weight: bold".to_owned());
        }
        if self.italic {
            parts.push("font-style: italic".to_owned());
        }
        if self.underline {
            parts.push("text-decoration: underline".to_owned());
        }
        proof {
            assert(parts.deep_view() =~= expected);
        }
        join_strings(&parts, "; ")
    }
}

/// The CSS declarations a key asks for: its color when visible, then the
/// font styles it sets.
pub open spec fn spec_css_parts(k: StyleKey) -> Seq<Seq<char>> {
    let color: Seq<Seq<char>> = if k.fg_a > 0 {
        seq![
            "color: #"@ + spec_hex2(k.fg_r as int) + spec_hex2(k.fg_g as int) + spec_hex2(
                k.fg_b as int,
            ),
        ]
    } else {
        Seq::<Seq<char>>::empty()
    };
    let bold: Seq<Seq<char>> = if k.bold {
        seq!["font-weight: bold"@]
    } else {
        Seq::<Seq<char>>::empty()
    };
    let italic: Seq<Seq<char>> = if k.italic {
        seq!["font-style: italic"@]
    } else {
        Seq::<Seq<char>>::empty()
    };
    let underline: Seq<Seq<char>> = if k.underline {
        seq!["text-decoration: underline"@]
    } else {
        Seq::<Seq<char>>::empty()
    };
    color + bold + italic + underline
}

/// The expansion of one character in HTML text.
pub open spec fn escape_char(c: char) -> Seq<char> {
    if c == '&' {
        "&amp;"@
    } else if c == '<' {
        "&lt;"@
    } else if c == '>' {
        "&gt;"@
    } else if c == '"' {
        "&quot;"@
    } else if c == '\'' {
        "&#39;"@
    } else {
        seq![c]
    }
}

/// HTML-escaping of a character sequence: each character expanded.
pub open spec fn spec_escape(s: Seq<char>) -> Seq<char>
    decreases s.len(),
{
    if s.len() == 0 {
        Seq::<char>::empty()
    } else {
        spec_escape(s.drop_last()) + escape_char(s.last())
    }
}

/// Escapes the characters HTML gives meaning to.
pub fn html_escape(s: &str) -> (r: String)
    ensures
        r@ == spec_escape(s@),
{
    let n = s.unicode_len();
    let mut out = String::new();
    let mut i: usize = 0;
    proof {
        assert(s@.take(0) =~= Seq::<char>::empty());
    }
    while i < n
        invariant
            n == s@.len(),
            i <= n,
            out@ == spec_escape(s@.take(i as int)),
        decreases n - i,
    {
        let c = s.get_char(i);
        if c == '&' {
            out.append("&amp;");
        } else if c == '<' {
            out.append("&lt;");
        } else if c == '>' {
            out.append("&gt;");
        } else if c == '"' {
            out.append("&quot;");
        } else if c == '\'' {
            out.append("&#39;");
        } else {
            let piece = s.substring_char(i, i + 1);
            proof {
                assert(piece@ =~= seq![s@[i as int]]);
            }
            out.append(piece);
        }
        proof {
            assert(s@.take(i + 1).drop_last() =~= s@.take(i as int));
            assert(s@.take(i + 1).last() == s@[i as int]);
        }
        i = i + 1;
    }
    proof {
        assert(s@.take(n as int) =~= s@);
    }
    out
}

/// One named style class of the palette.
pub struct ClassDef {
    /// The style combination the class stands for.
    pub key: StyleKey,
    /// The class name, `c1`, `c2`, … in order of first appearance.
    pub name: String,
}

/// The mathematical content of a [`ClassDef`].
pub ghost struct ClassDefView {
    pub key: StyleKey,
    pub name: Seq<char>,
}

impl View for ClassDef {
    type V = ClassDefView;

    open spec fn view(&self) -> ClassDefView {
        ClassDefView { key: self.key, name: self.name@ }
    }
}

/// The view of a class definition as a first-class function.
pub open spec fn cd_view_fn() -> spec_fn(ClassDef) -> ClassDefView {
    |c: ClassDef| c@
}

/// The views of a palette.
pub open spec fn cd_views(s: Seq<ClassDef>) -> Seq<ClassDefView> {
    s.map_values(cd_view_fn())
}

impl OrderedByKey for ClassDef {
    open spec fn key_lt_spec(&self, other: &Self) -> bool {
        lex_lt(self.name@, other.name@)
    }

    fn key_lt(&self, other: &Self) -> (r: bool) {
        str_lex_lt(self.name.as_str(), other.name.as_str())
    }
}

/// The palette order used when the classes are written out: by name.
pub open spec fn cdv_lt() -> spec_fn(ClassDefView, ClassDefView) -> bool {
    |a: ClassDefView, b: ClassDefView| lex_lt(a.name, b.name)
}

/// Whether the palette already holds a class for the key.
pub open spec fn table_has_key(t: Seq<ClassDefView>, k: StyleKey) -> bool {
    exists|i: int| 0 <= i < t.len() && #[trigger] t[i].key == k
}

/// The class name the palette gives a key, if any: the first match.
pub open spec fn spec_class_lookup(t: Seq<ClassDefView>, k: StyleKey) -> Option<Seq<char>>
    decreases t.len(),
{
    if t.len() == 0 {
        None
    } else if t[0].key == k {
        Some(t[0].name)
    } else {
        spec_class_lookup(t.drop_first(), k)
    }
}

/// The palette built from a sequence of span keys: each non-default key,
/// at its first appearance, gets the next name `c1`, `c2`, …
pub open spec fn spec_class_table(keys: Seq<StyleKey>) -> Seq<ClassDefView>
    decreases keys.len(),
{
    if keys.len() == 0 {
        Seq::<ClassDefView>::empty()
    } else {
        let prev = spec_class_table(keys.drop_last());
        let key = keys.last();
        if !key.spec_is_default() && !table_has_key(prev, key) {
            prev.push(ClassDefView { key, name: "c"@ + spec_dec(prev.len() as int + 1) })
        } else {
            prev
        }
    }
}

/// Looks a key up in the palette.
pub fn class_lookup<'a>(table: &'a Vec<ClassDef>, key: &StyleKey) -> (r: Option<&'a String>)
    ensures
        match r {
            Some(name) => spec_class_lookup(cd_views(table@), *key) == Some(name@),
            None => spec_class_lookup(cd_views(table@), *key) is None,
        },
{
    let n = table.len();
    let mut i: usize = 0;
    proof {
        assert(cd_views(table@).skip(0) =~= cd_views(table@));
    }
    while i < n
        invariant
            n == table@.len(),
            i <= n,
            spec_class_lookup(cd_views(table@), *key) == spec_class_lookup(
                cd_views(table@).skip(i as int),
                *key,
            ),
        decreases n - i,
    {
        proof {
            assert(cd_views(table@).skip(i as int)[0] == cd_views(table@)[i as int]);
            assert(cd_views(table@)[i as int] == table@[i as int]@);
            assert(cd_views(table@).skip(i as int).drop_first() =~= cd_views(table@).skip(i + 1));
        }
        if table[i].key == *key {
            return Some(&table[i].name);
        }
        i = i + 1;
    }
    proof {
        assert(cd_views(table@).skip(n as int) =~= Seq::<ClassDefView>::empty());
    }
    None
}

/// Extends the palette with one span key, naming it on first appearance.
pub fn table_note_key(table: &mut Vec<ClassDef>, key: StyleKey)
    ensures
        cd_views(final(table)@) == spec_class_table_step(cd_views(old(table)@), key),
{
    let is_new = if key.is_default() {
        false
    } else {
        let mut found: bool = false;
        let n = table.len();
        let mut i: usize = 0;
        while i < n
            invariant
                n == table@.len(),
                i <= n,
                found == exists|k: int|
                    0 <= k < i && #[trigger] cd_views(table@)[k].key == key,
            decreases n - i,
        {
            proof {
                assert(cd_views(table@)[i as int] == table@[i as int]@);
            }
            if table[i].key == key {
                found = true;
                proof {
                    assert(cd_views(table@)[i as int].key == key);
                }
            } else {
                proof {
                    assert(cd_views(table@)[i as int].key != key);
                }
            }
            i = i + 1;
        }
        proof {
            assert(found == table_has_key(cd_views(table@), key));
        }
        !found
    };
    if is_new {
        let count = table.len();
        let mut name = "c".to_owned();
        name.append(crate::strutil::dec_succ(count as u64).as_str());
        let ghost before = cd_views(table@);
        table.push(ClassDef { key, name });
        proof {
            assert(cd_views(table@) =~= before.push(
                ClassDefView { key, name: "c"@ + spec_dec(before.len() as int + 1) },
            ));
        }
    }
}

/// One step of palette building.
pub open spec fn spec_class_table_step(t: Seq<ClassDefView>, key: StyleKey) -> Seq<ClassDefView> {
    if !key.spec_is_default() && !table_has_key(t, key) {
        t.push(ClassDefView { key, name: "c"@ + spec_dec(t.len() as int + 1) })
    } else {
        t
    }
}

/// The CSS block of the palette: one rule per class, sorted by class
/// name, each written as an indented `.name { declarations }` line; empty
/// when the palette is empty.
pub open spec fn spec_css_classes(table: Seq<ClassDefView>) -> Seq<char> {
    spec_css_rules(spec_isort(table, cdv_lt()), spec_isort(table, cdv_lt()).len() as int)
}

/// The first `k` CSS rules of a sorted palette, concatenated.
pub open spec fn spec_css_rules(sorted: Seq<ClassDefView>, k: int) -> Seq<char>
    decreases k,
{
    if k <= 0 {
        Seq::<char>::empty()
    } else {
        spec_css_rules(sorted, k - 1) + "        ."@ + sorted[k - 1].name + " { "@ + spec_key_css(
            sorted[k - 1].key,
        ) + " }\n"@
    }
}

/// The CSS of a key, as [`StyleKey::spec_to_css`] gives it.
pub open spec fn spec_key_css(k: StyleKey) -> Seq<char> {
    spec_join(spec_css_parts(k), "; "@)
}

/// Writes the palette's CSS class definitions, sorted by class name.
pub fn generate_css_classes(table: &Vec<ClassDef>) -> (r: String)
    ensures
        r@ == spec_css_classes(cd_views(table@)),
{
    let mut sorted_input: Vec<ClassDef> = Vec::new();
    let n = table.len();
    let mut i: usize = 0;
    while i < n
        invariant
            n == table@.len(),
            i <= n,
            sorted_input@.len() == i,
            forall|k: int|
                0 <= k < i ==> #[trigger] sorted_input@[k]@ == table@[k]@,
        decreases n - i,
    {
        let c = ClassDef { key: table[i].key, name: table[i].name.clone() };
        proof {
            assert(c@ == table@[i as int]@);
        }
        sorted_input.push(c);
        i = i + 1;
    }
    proof {
        assert(cd_views(sorted_input@) =~= cd_views(table@));
    }
    let ghost pre = sorted_input@;
    let sorted = insertion_sort(sorted_input);
    proof {
        lemma_isort_map(pre, cd_view_fn(), key_lt_of::<ClassDef>(), cdv_lt());
        assert(cd_views(sorted@) =~= spec_isort(cd_views(table@), cdv_lt()));
    }
    let ghost sv = spec_isort(cd_views(table@), cdv_lt());
    let m = sorted.len();
    proof {
        crate::sorting::lemma_isort_multiset(cd_views(table@), cdv_lt());
        assert(sv.len() == m);
    }
    let mut out = String::new();
    let mut j: usize = 0;
    while j < m
        invariant
            m == sorted@.len(),
            sv == spec_isort(cd_views(table@), cdv_lt()),
            cd_views(sorted@) =~= sv,
            sv.len() == m,
            j <= m,
            out@ == spec_css_rules(sv, j as int),
        decreases m - j,
    {
        proof {
            assert(cd_views(sorted@)[j as int] == sorted@[j as int]@);
        }
        out.append("        .");
        out.append(sorted[j].name.as_str());
        out.append(" { ");
        let css = sorted[j].key.to_css();
        out.append(css.as_str());
        out.append(" }\n");
        j = j + 1;
    }
    out
}

} // verus!
