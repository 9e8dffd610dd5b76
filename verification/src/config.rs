//! Configuration values the pipeline consumes: page geometry and margins
//! parsed from their textual forms, the repository name taken from a
//! source location, and the small derived names and settings.
//!
//! Lengths are carried in tenths of a millimeter, so the parsers stay
//! within integer arithmetic; further fraction digits are truncated.

use vstd::prelude::*;

use crate::classifier::spec_trim_rs;
use crate::strutil::{lemma_split_nonempty, spec_dec, spec_split, split_char, u64_to_dec};

verus! {

/// Why a configuration value was rejected.
#[derive(Clone, Copy, Debug, PartialEq, Eq, Structural)]
pub enum ConfigError {
    /// The paper size is not two measures separated by the size
    /// separator.
    PaperSizeFormat,
    /// The paper width is not a usable number.
    PaperWidth,
    /// The paper height is not a usable number.
    PaperHeight,
    /// A margin is not a usable number.
    MarginValue,
    /// The margins are not one, two or four measures.
    MarginsFormat,
}

/// Whether a character counts as blank space between margin values.
pub open spec fn is_ws(c: char) -> bool {
    c == ' ' || c == '\t' || c == '\n' || c == '\r'
}

/// Leading blank space removed.
pub open spec fn spec_trim_front(s: Seq<char>) -> Seq<char>
    decreases s.len(),
{
    if s.len() > 0 && is_ws(s[0]) {
        spec_trim_front(s.drop_first())
    } else {
        s
    }
}

/// Trailing blank space removed.
pub open spec fn spec_trim_back(s: Seq<char>) -> Seq<char>
    decreases s.len(),
{
    if s.len() > 0 && is_ws(s.last()) {
        spec_trim_back(s.drop_last())
    } else {
        s
    }
}

/// Surrounding blank space removed.
pub open spec fn spec_trim(s: Seq<char>) -> Seq<char> {
    spec_trim_back(spec_trim_front(s))
}

/// Trims surrounding blank space.
pub fn str_trim(s: &str) -> (r: String)
    ensures
        r@ == spec_trim(s@),
{
    let n = s.unicode_len();
    let mut start: usize = 0;
    proof {
        assert(s@.skip(0) =~= s@);
    }
    while start < n && (s.get_char(start) == ' ' || s.get_char(start) == '\t' || s.get_char(start)
        == '\n' || s.get_char(start) == '\r')
        invariant
            n == s@.len(),
            start <= n,
            spec_trim_front(s@) == spec_trim_front(s@.skip(start as int)),
        decreases n - start,
    {
        proof {
            assert(s@.skip(start as int)[0] == s@[start as int]);
            assert(s@.skip(start as int).drop_first() =~= s@.skip(start + 1));
        }
        start = start + 1;
    }
    proof {
        if start < n {
            assert(s@.skip(start as int)[0] == s@[start as int]);
            assert(!is_ws(s@.skip(start as int)[0]));
        } else {
            assert(s@.skip(start as int) =~= Seq::<char>::empty());
        }
        assert(spec_trim_front(s@) == s@.skip(start as int));
    }
    let mut end: usize = n;
    proof {
        assert(s@.skip(start as int).take(n - start) =~= s@.skip(start as int));
    }
    while end > start && (s.get_char(end - 1) == ' ' || s.get_char(end - 1) == '\t' || s.get_char(
        end - 1,
    ) == '\n' || s.get_char(end - 1) == '\r')
        invariant
            n == s@.len(),
            start <= end <= n,
            spec_trim_front(s@) == s@.skip(start as int),
            spec_trim_back(s@.skip(start as int)) == spec_trim_back(
                s@.skip(start as int).take(end - start),
            ),
        decreases end,
    {
        proof {
            let cur = s@.skip(start as int).take(end - start);
            assert(cur.last() == s@[end - 1]);
            assert(cur.drop_last() =~= s@.skip(start as int).take(end - 1 - start));
        }
        end = end - 1;
    }
    let piece = s.substring_char(start, end);
    proof {
        let cur = s@.skip(start as int).take(end - start);
        if end > start {
            assert(cur.last() == s@[end - 1]);
            assert(!is_ws(cur.last()));
        }
        assert(spec_trim_back(cur) == cur);
        assert(piece@ =~= cur);
    }
    piece.to_owned()
}

/// The numeric value of a digit sequence.
pub open spec fn spec_digits_val(ds: Seq<char>) -> int
    decreases ds.len(),
{
    if ds.len() == 0 {
        0
    } else {
        spec_digits_val(ds.drop_last()) * 10 + (ds.last() as int - '0' as int)
    }
}

/// Whether every character is a decimal digit.
pub open spec fn all_digits(ds: Seq<char>) -> bool {
    forall|i: int| 0 <= i < ds.len() ==> '0' <= #[trigger] ds[i] <= '9'
}

/// A measure in tenths, read from decimal notation with an optional
/// fraction: the whole part, one fraction digit kept, further digits
/// truncated; rejected when malformed or too large to carry.
pub open spec fn spec_measure_tenths(s: Seq<char>) -> Option<int> {
    let t = spec_trim(s);
    let pieces = spec_split(t, '.');
    if pieces.len() == 1 && t.len() > 0 && all_digits(t) {
        if spec_digits_val(t) * 10 <= u32::MAX {
            Some(spec_digits_val(t) * 10)
        } else {
            None
        }
    } else if pieces.len() == 2 && pieces[0].len() > 0 && all_digits(pieces[0]) && all_digits(
        pieces[1],
    ) {
        let whole = spec_digits_val(pieces[0]);
        let frac: int = if pieces[1].len() > 0 {
            pieces[1][0] as int - '0' as int
        } else {
            0
        };
        if whole * 10 + frac <= u32::MAX {
            Some(whole * 10 + frac)
        } else {
            None
        }
    } else {
        None
    }
}

/// Reads a digit sequence, within the carrying range.
fn parse_digits(s: &str) -> (r: Option<u64>)
    requires
        s@.len() > 0,
        all_digits(s@),
    ensures
        match r {
            Some(v) => v == spec_digits_val(s@) && v <= u32::MAX,
            None => spec_digits_val(s@) > u32::MAX,
        },
{
    let n = s.unicode_len();
    let mut acc: u64 = 0;
    let mut i: usize = 0;
    proof {
        assert(s@.take(0) =~= Seq::<char>::empty());
        assert(spec_digits_val(s@.take(0)) == 0);
    }
    while i < n
        invariant
            n == s@.len(),
            all_digits(s@),
            i <= n,
            acc == spec_digits_val(s@.take(i as int)),
            acc <= u32::MAX,
        decreases n - i,
    {
        let c = s.get_char(i);
        proof {
            assert(s@[i as int] == c);
            assert('0' <= c <= '9');
        }
        let d: u64 = (c as u32 as u64) - 48;
        if acc > (u32::MAX as u64) / 10 || acc * 10 + d > u32::MAX as u64 {
            proof {
                lemma_digits_val_monotone(s@, i as int);
                assert(s@.take(i + 1).drop_last() =~= s@.take(i as int));
                assert(s@.take(i + 1).last() == c);
                assert(spec_digits_val(s@.take(i + 1)) == acc * 10 + d);
            }
            return None;
        }
        acc = acc * 10 + d;
        proof {
            assert(s@.take(i + 1).drop_last() =~= s@.take(i as int));
            assert(s@.take(i + 1).last() == c);
        }
        i = i + 1;
    }
    proof {
        assert(s@.take(n as int) =~= s@);
    }
    Some(acc)
}

/// The value of a digit sequence never shrinks as it grows.
proof fn lemma_digits_val_monotone(s: Seq<char>, k: int)
    requires
        0 <= k < s.len(),
        all_digits(s),
    ensures
        spec_digits_val(s) >= spec_digits_val(s.take(k + 1)),
        spec_digits_val(s.take(k + 1)) >= 0,
    decreases s.len(),
{
    lemma_digits_val_nonneg(s.take(k + 1));
    if k + 1 < s.len() {
        assert(s.drop_last().take(k + 1) =~= s.take(k + 1));
        assert(all_digits(s.drop_last())) by {
            assert(forall|i: int|
                0 <= i < s.drop_last().len() ==> s.drop_last()[i] == s[i]);
        }
        lemma_digits_val_monotone(s.drop_last(), k);
        lemma_digits_val_nonneg(s.drop_last());
        assert(s.last() as int - '0' as int >= 0);
    } else {
        assert(s.take(k + 1) =~= s);
    }
}

/// The value of a digit sequence is not negative.
proof fn lemma_digits_val_nonneg(s: Seq<char>)
    requires
        all_digits(s),
    ensures
        spec_digits_val(s) >= 0,
    decreases s.len(),
{
    if s.len() > 0 {
        assert(all_digits(s.drop_last())) by {
            assert(forall|i: int|
                0 <= i < s.drop_last().len() ==> s.drop_last()[i] == s[i]);
        }
        lemma_digits_val_nonneg(s.drop_last());
    }
}

/// Checks that a piece is all digits.
fn check_all_digits(s: &str) -> (r: bool)
    ensures
        r == all_digits(s@),
{
    let n = s.unicode_len();
    let mut i: usize = 0;
    while i < n
        invariant
            n == s@.len(),
            i <= n,
            forall|k: int| 0 <= k < i ==> '0' <= #[trigger] s@[k] <= '9',
        decreases n - i,
    {
        let c = s.get_char(i);
        if !(c >= '0' && c <= '9') {
            proof {
                assert(!('0' <= s@[i as int] <= '9'));
            }
            return false;
        }
        i = i + 1;
    }
    true
}

/// Reads one measure into tenths.
pub fn parse_measure_tenths(s: &str) -> (r: Option<u32>)
    ensures
        match r {
            Some(v) => spec_measure_tenths(s@) == Some(v as int),
            None => spec_measure_tenths(s@) is None,
        },
{
    let t = str_trim(s);
    let pieces = split_char(t.as_str(), '.');
    proof {
        lemma_split_nonempty(t@, '.');
        assert(forall|i: int|
            0 <= i < pieces@.len() ==> pieces.deep_view()[i] == pieces@[i]@);
    }
    if pieces.len() == 1 {
        let whole = &pieces[0];
        proof {
            assert(pieces.deep_view()[0] == t@) by {
                assert(spec_split(t@, '.').len() == 1);
                lemma_split_single(t@, '.');
            }
            assert(whole@ == t@);
        }
        if whole.as_str().unicode_len() == 0 || !check_all_digits(whole.as_str()) {
            return None;
        }
        match parse_digits(whole.as_str()) {
            Some(v) => {
                if v <= (u32::MAX as u64) / 10 {
                    Some((v as u32) * 10)
                } else {
                    None
                }
            },
            None => None,
        }
    } else if pieces.len() == 2 {
        let whole = &pieces[0];
        let frac = &pieces[1];
        if whole.as_str().unicode_len() == 0 || !check_all_digits(whole.as_str())
            || !check_all_digits(frac.as_str()) {
            return None;
        }
        let frac_digit: u32 = if frac.as_str().unicode_len() > 0 {
            let c = frac.as_str().get_char(0);
            proof {
                assert('0' <= frac@[0] <= '9');
            }
            (c as u32) - 48
        } else {
            0
        };
        match parse_digits(whole.as_str()) {
            Some(v) => {
                if v <= ((u32::MAX as u64) - (frac_digit as u64)) / 10 {
                    Some((v as u32) * 10 + frac_digit)
                } else {
                    None
                }
            },
            None => None,
        }
    } else {
        None
    }
}

/// A single piece means the whole text held no separator.
proof fn lemma_split_single(s: Seq<char>, sep: char)
    requires
        spec_split(s, sep).len() == 1,
    ensures
        spec_split(s, sep)[0] == s,
    decreases s.len(),
{
    if s.len() > 0 {
        if s[0] == sep {
            crate::strutil::lemma_split_nonempty(s.drop_first(), sep);
        } else {
            crate::strutil::lemma_split_nonempty(s.drop_first(), sep);
            lemma_split_single(s.drop_first(), sep);
            assert(seq![s[0]] + spec_split(s.drop_first(), sep)[0] =~= s);
        }
    } else {
        assert(spec_split(s, sep)[0] =~= s);
    }
}

/// The paper size read from its textual form: width and height separated
/// by the size separator, each a measure in tenths of a millimeter.
pub open spec fn spec_paper_size(s: Seq<char>) -> Result<(int, int), ConfigError> {
    let pieces = spec_split(s, 'x');
    if pieces.len() != 2 {
        Err(ConfigError::PaperSizeFormat)
    } else {
        match spec_measure_tenths(pieces[0]) {
            None => Err(ConfigError::PaperWidth),
            Some(w) => match spec_measure_tenths(pieces[1]) {
                None => Err(ConfigError::PaperHeight),
                Some(h) => Ok((w, h)),
            },
        }
    }
}

/// Reads the paper size, in tenths of a millimeter.
pub fn parse_paper_size(s: &str) -> (r: Result<(u32, u32), ConfigError>)
    ensures
        match r {
            Ok(wh) => spec_paper_size(s@) == Ok::<(int, int), ConfigError>(
                (wh.0 as int, wh.1 as int),
            ),
            Err(e) => spec_paper_size(s@) == Err::<(int, int), ConfigError>(e),
        },
{
    let pieces = split_char(s, 'x');
    proof {
        lemma_split_nonempty(s@, 'x');
        assert(forall|i: int|
            0 <= i < pieces@.len() ==> pieces.deep_view()[i] == pieces@[i]@);
    }
    if pieces.len() != 2 {
        return Err(ConfigError::PaperSizeFormat);
    }
    let w = match parse_measure_tenths(pieces[0].as_str()) {
        Some(w) => w,
        None => {
            return Err(ConfigError::PaperWidth);
        },
    };
    let h = match parse_measure_tenths(pieces[1].as_str()) {
        Some(h) => h,
        None => {
            return Err(ConfigError::PaperHeight);
        },
    };
    Ok((w, h))
}


/// The blank-separated tokens of a text: the maximal runs of non-blank
/// characters, in order.
pub open spec fn spec_tokens(s: Seq<char>) -> Seq<Seq<char>>
    decreases s.len(),
{
    if s.len() == 0 {
        Seq::<Seq<char>>::empty()
    } else if is_ws(s[0]) {
        spec_tokens(s.drop_first())
    } else {
        let rest = spec_tokens(s.drop_first());
        if s.len() > 1 && !is_ws(s[1]) {
            seq![seq![s[0]] + rest[0]] + rest.drop_first()
        } else {
            seq![seq![s[0]]] + rest
        }
    }
}

/// A text starting with a non-blank character has at least one token.
proof fn lemma_tokens_head(s: Seq<char>)
    requires
        s.len() > 0,
        !is_ws(s[0]),
    ensures
        spec_tokens(s).len() >= 1,
    decreases s.len(),
{
    if s.len() > 1 && !is_ws(s[1]) {
        lemma_tokens_head(s.drop_first());
    }
}

/// The tokens of further text behind a nonempty token buffer.
spec fn glue_tokens(pre: Seq<char>, rest: Seq<char>) -> Seq<Seq<char>> {
    if pre.len() == 0 {
        spec_tokens(rest)
    } else if rest.len() == 0 {
        seq![pre]
    } else if is_ws(rest[0]) {
        seq![pre] + spec_tokens(rest)
    } else {
        seq![pre + spec_tokens(rest)[0]] + spec_tokens(rest).drop_first()
    }
}

/// Splits a text into its blank-separated tokens.
pub fn split_tokens(s: &str) -> (r: Vec<String>)
    ensures
        r.deep_view() == spec_tokens(s@),
{
    let n = s.unicode_len();
    let mut done: Vec<String> = Vec::new();
    let mut cur = String::new();
    let mut i: usize = 0;
    proof {
        assert(s@.skip(0) =~= s@);
        assert(done.deep_view() =~= Seq::<Seq<char>>::empty());
        assert(glue_tokens(cur@, s@.skip(0)) =~= spec_tokens(s@));
    }
    while i < n
        invariant
            n == s@.len(),
            i <= n,
            spec_tokens(s@) =~= done.deep_view() + glue_tokens(cur@, s@.skip(i as int)),
        decreases n - i,
    {
        proof {
            assert(s@.skip(i as int)[0] == s@[i as int]);
            assert(s@.skip(i as int).drop_first() =~= s@.skip(i + 1));
            if i + 1 < n {
                assert(s@.skip(i as int)[1] == s@[i + 1]);
            }
        }
        let c = s.get_char(i);
        let is_blank = c == ' ' || c == '\t' || c == '\n' || c == '\r';
        if is_blank {
            if cur.unicode_len() > 0 {
                let ghost old_done = done.deep_view();
                let ghost old_cur = cur@;
                done.push(cur);
                cur = String::new();
                proof {
                    assert(done.deep_view() =~= old_done.push(old_cur));
                    assert(glue_tokens(old_cur, s@.skip(i as int)) =~= seq![old_cur]
                        + spec_tokens(s@.skip(i + 1)));
                    assert(glue_tokens(cur@, s@.skip(i + 1)) =~= spec_tokens(s@.skip(i + 1)));
                    assert(old_done + glue_tokens(old_cur, s@.skip(i as int)) =~= done.deep_view()
                        + glue_tokens(cur@, s@.skip(i + 1)));
                }
            } else {
                proof {
                    assert(glue_tokens(cur@, s@.skip(i as int)) =~= spec_tokens(
                        s@.skip(i as int),
                    ));
                    assert(spec_tokens(s@.skip(i as int)) =~= spec_tokens(s@.skip(i + 1)));
                }
            }
        } else {
            let piece = s.substring_char(i, i + 1);
            proof {
                assert(piece@ =~= seq![s@[i as int]]);
            }
            let ghost old_cur = cur@;
            cur.append(piece);
            proof {
                let rest = s@.skip(i as int);
                let rest2 = s@.skip(i + 1);
                let tk = spec_tokens(rest);
                let tk2 = spec_tokens(rest2);
                if rest.len() > 1 && !is_ws(rest[1]) {
                    lemma_tokens_head(rest2);
                    assert(tk =~= seq![seq![s@[i as int]] + tk2[0]] + tk2.drop_first());
                    if old_cur.len() == 0 {
                        assert(glue_tokens(old_cur, rest) =~= tk);
                        assert(glue_tokens(cur@, rest2) =~= seq![cur@ + tk2[0]]
                            + tk2.drop_first());
                        assert(cur@ + tk2[0] =~= seq![s@[i as int]] + tk2[0]);
                        assert(glue_tokens(old_cur, rest) =~= glue_tokens(cur@, rest2));
                    } else {
                        assert(glue_tokens(old_cur, rest) =~= seq![old_cur + tk[0]]
                            + tk.drop_first());
                        assert(old_cur + tk[0] =~= cur@ + tk2[0]);
                        assert(tk.drop_first() =~= tk2.drop_first());
                        assert(glue_tokens(old_cur, rest) =~= glue_tokens(cur@, rest2));
                    }
                } else {
                    assert(tk =~= seq![seq![s@[i as int]]] + tk2);
                    if rest2.len() > 0 {
                        assert(is_ws(rest2[0]));
                    }
                    if old_cur.len() == 0 {
                        assert(glue_tokens(old_cur, rest) =~= tk);
                        assert(glue_tokens(cur@, rest2) =~= seq![cur@] + tk2);
                        assert(cur@ =~= seq![s@[i as int]]);
                        assert(glue_tokens(old_cur, rest) =~= glue_tokens(cur@, rest2));
                    } else {
                        assert(glue_tokens(old_cur, rest) =~= seq![old_cur + tk[0]]
                            + tk.drop_first());
                        assert(tk[0] =~= seq![s@[i as int]]);
                        assert(old_cur + tk[0] =~= cur@);
                        assert(tk.drop_first() =~= tk2);
                        assert(glue_tokens(cur@, rest2) =~= seq![cur@] + tk2);
                        assert(glue_tokens(old_cur, rest) =~= glue_tokens(cur@, rest2));
                    }
                }
            }
        }
        i = i + 1;
    }
    proof {
        assert(s@.skip(n as int) =~= Seq::<char>::empty());
        assert(spec_tokens(Seq::<char>::empty()) =~= Seq::<Seq<char>>::empty());
    }
    if cur.unicode_len() > 0 {
        let ghost old_done = done.deep_view();
        let ghost last = cur@;
        done.push(cur);
        proof {
            assert(done.deep_view() =~= old_done.push(last));
            assert(glue_tokens(last, Seq::<char>::empty()) =~= seq![last]);
        }
    } else {
        proof {
            assert(glue_tokens(cur@, Seq::<char>::empty()) =~= Seq::<Seq<char>>::empty());
            assert(done.deep_view() + Seq::<Seq<char>>::empty() =~= done.deep_view());
        }
    }
    done
}

/// Whether every token is a usable measure.
pub open spec fn all_measures(ts: Seq<Seq<char>>) -> bool {
    forall|i: int| 0 <= i < ts.len() ==> spec_measure_tenths(#[trigger] ts[i]) is Some
}

/// The margins read from their textual form, in tenths of a millimeter:
/// one value for all four sides; two values for the vertical then the
/// horizontal sides; or four values for top, right, bottom and left.
pub open spec fn spec_margins(s: Seq<char>) -> Result<(int, int, int, int), ConfigError> {
    let ts = spec_tokens(s);
    if !all_measures(ts) {
        Err(ConfigError::MarginValue)
    } else if ts.len() == 1 {
        let v = spec_measure_tenths(ts[0])->Some_0;
        Ok((v, v, v, v))
    } else if ts.len() == 2 {
        let v0 = spec_measure_tenths(ts[0])->Some_0;
        let v1 = spec_measure_tenths(ts[1])->Some_0;
        Ok((v0, v1, v0, v1))
    } else if ts.len() == 4 {
        let v0 = spec_measure_tenths(ts[0])->Some_0;
        let v1 = spec_measure_tenths(ts[1])->Some_0;
        let v2 = spec_measure_tenths(ts[2])->Some_0;
        let v3 = spec_measure_tenths(ts[3])->Some_0;
        Ok((v0, v1, v2, v3))
    } else {
        Err(ConfigError::MarginsFormat)
    }
}

/// Reads the margins: top, right, bottom and left, in tenths of a
/// millimeter.
pub fn parse_margins(s: &str) -> (r: Result<(u32, u32, u32, u32), ConfigError>)
    ensures
        match r {
            Ok(m) => spec_margins(s@) == Ok::<(int, int, int, int), ConfigError>(
                (m.0 as int, m.1 as int, m.2 as int, m.3 as int),
            ),
            Err(e) => spec_margins(s@) == Err::<(int, int, int, int), ConfigError>(e),
        },
{
    let tokens = split_tokens(s);
    let ghost tv = spec_tokens(s@);
    let n = tokens.len();
    let mut values: Vec<u32> = Vec::new();
    let mut i: usize = 0;
    while i < n
        invariant
            n == tokens@.len(),
            tv == spec_tokens(s@),
            tokens.deep_view() == tv,
            i <= n,
            values@.len() == i,
            forall|k: int|
                0 <= k < i ==> spec_measure_tenths(tv[k]) == Some(
                    #[trigger] values@[k] as int,
                ),
        decreases n - i,
    {
        proof {
            assert(tokens.deep_view()[i as int] == tokens@[i as int]@);
        }
        match parse_measure_tenths(tokens[i].as_str()) {
            Some(v) => {
                values.push(v);
            },
            None => {
                return Err(ConfigError::MarginValue);
            },
        }
        i = i + 1;
    }
    proof {
        assert(tv.len() == n);
        assert forall|k: int| 0 <= k < tv.len() implies spec_measure_tenths(
            #[trigger] tv[k],
        ) is Some by {
            assert(spec_measure_tenths(tv[k]) == Some(values@[k] as int));
        }
        assert(all_measures(tv));
    }
    if values.len() == 1 {
        let v = values[0];
        Ok((v, v, v, v))
    } else if values.len() == 2 {
        Ok((values[0], values[1], values[0], values[1]))
    } else if values.len() == 4 {
        Ok((values[0], values[1], values[2], values[3]))
    } else {
        Err(ConfigError::MarginsFormat)
    }
}

/// The repository location with every trailing `.git` removed.
pub open spec fn spec_trim_git(url: Seq<char>) -> Seq<char>
    decreases url.len(),
{
    if url.len() >= 4 && url.skip(url.len() - 4) == ".git"@ {
        spec_trim_git(url.take(url.len() - 4))
    } else {
        url
    }
}

/// The repository name taken from a source location: the last path
/// segment after trimming the version-control extension; behind that,
/// the last path segment of whatever follows the final colon; nothing
/// when both are empty.
pub open spec fn spec_repo_name(url: Seq<char>) -> Option<Seq<char>> {
    let u = spec_trim_git(url);
    let last1 = spec_split(u, '/').last();
    if last1.len() > 0 {
        Some(last1)
    } else {
        let path = spec_split(u, ':').last();
        let last2 = spec_split(path, '/').last();
        if last2.len() > 0 {
            Some(last2)
        } else {
            None
        }
    }
}

/// Trims every trailing `.git` from a location.
fn trim_git(url: &str) -> (r: String)
    ensures
        r@ == spec_trim_git(url@),
    decreases url@.len(),
{
    proof {
        reveal_strlit(".git");
    }
    let n = url.unicode_len();
    if n >= 4 && crate::strutil::str_has_suffix(url, ".git") {
        let shorter = url.substring_char(0, n - 4);
        proof {
            assert(shorter@ =~= url@.take(url@.len() - 4));
        }
        trim_git(shorter)
    } else {
        url.to_owned()
    }
}

/// Extracts the repository name from a source location.
pub fn extract_repo_name(url: &str) -> (r: Option<String>)
    ensures
        match r {
            Some(name) => spec_repo_name(url@) == Some(name@),
            None => spec_repo_name(url@) is None,
        },
{
    let u = trim_git(url);
    let pieces = split_char(u.as_str(), '/');
    proof {
        lemma_split_nonempty(u@, '/');
        assert(pieces.deep_view().last() == pieces@[pieces@.len() - 1]@);
    }
    let last1 = &pieces[pieces.len() - 1];
    if last1.as_str().unicode_len() > 0 {
        return Some(last1.clone());
    }
    let colon_pieces = split_char(u.as_str(), ':');
    proof {
        lemma_split_nonempty(u@, ':');
        assert(colon_pieces.deep_view().last() == colon_pieces@[colon_pieces@.len() - 1]@);
    }
    let path = &colon_pieces[colon_pieces.len() - 1];
    let sub_pieces = split_char(path.as_str(), '/');
    proof {
        lemma_split_nonempty(path@, '/');
        assert(sub_pieces.deep_view().last() == sub_pieces@[sub_pieces@.len() - 1]@);
    }
    let last2 = &sub_pieces[sub_pieces.len() - 1];
    if last2.as_str().unicode_len() > 0 {
        return Some(last2.clone());
    }
    None
}

/// The formatter configuration line asking for the given line width.
pub open spec fn spec_fmt_config(line_width: int) -> Seq<char> {
    "max_width = "@ + spec_dec(line_width) + "\n"@
}

/// Writes the formatter configuration for the given line width.
pub fn rustfmt_config_line(line_width: u32) -> (r: String)
    ensures
        r@ == spec_fmt_config(line_width as int),
{
    let mut out = "max_width = ".to_owned();
    out.append(u64_to_dec(line_width as u64).as_str());
    out.append("\n");
    proof {
        assert(out@ =~= spec_fmt_config(line_width as int));
    }
    out
}

/// The output artifact name of a module: its name with the artifact
/// extension.
pub fn pdf_output_name(name: &str) -> (r: String)
    ensures
        r@ == name@ + ".pdf"@,
{
    let mut out = name.to_owned();
    out.append(".pdf");
    out
}

/// The output artifact name of a single file: its name with the source
/// extension trimmed and the artifact extension added.
pub fn single_file_output_name(file_name: &str) -> (r: String)
    ensures
        r@ == spec_trim_rs(file_name@) + ".pdf"@,
{
    let mut out = crate::classifier::trim_rs_suffix(file_name);
    out.append(".pdf");
    out
}

} // verus!

