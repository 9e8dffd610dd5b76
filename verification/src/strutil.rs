//! Character-level string utilities with exact specifications.
//!
//! All executable functions here are total over their inputs and return
//! values pinned down by spec functions over `Seq<char>`.

use vstd::prelude::*;

verus! {

/// Strict lexicographic order on character sequences, comparing code points.
pub open spec fn lex_lt(a: Seq<char>, b: Seq<char>) -> bool
    decreases a.len(),
{
    if b.len() == 0 {
        false
    } else if a.len() == 0 {
        true
    } else if (a[0] as u32) < (b[0] as u32) {
        true
    } else if a[0] == b[0] {
        lex_lt(a.drop_first(), b.drop_first())
    } else {
        false
    }
}

/// `p` is a prefix of `s`.
pub open spec fn has_prefix(s: Seq<char>, p: Seq<char>) -> bool {
    p.len() <= s.len() && s.take(p.len() as int) == p
}

/// `p` is a suffix of `s`.
pub open spec fn has_suffix(s: Seq<char>, p: Seq<char>) -> bool {
    p.len() <= s.len() && s.skip(s.len() - p.len()) == p
}

/// `p` occurs in `s` as a contiguous substring.
pub open spec fn contains_seq(s: Seq<char>, p: Seq<char>) -> bool {
    exists|i: int| 0 <= i && i + p.len() <= s.len() && #[trigger] s.subrange(i, i + p.len()) == p
}

/// Lexicographic comparison of two string slices.
pub fn str_lex_lt(a: &str, b: &str) -> (r: bool)
    ensures
        r == lex_lt(a@, b@),
{
    let alen = a.unicode_len();
    let blen = b.unicode_len();
    let mut i: usize = 0;
    proof {
        assert(a@.skip(0) =~= a@);
        assert(b@.skip(0) =~= b@);
    }
    while i < alen && i < blen
        invariant
            alen == a@.len(),
            blen == b@.len(),
            i <= alen,
            i <= blen,
            lex_lt(a@, b@) == lex_lt(a@.skip(i as int), b@.skip(i as int)),
        decreases alen - i,
    {
        let ca = a.get_char(i);
        let cb = b.get_char(i);
        proof {
            assert(a@.skip(i as int)[0] == a@[i as int]);
            assert(b@.skip(i as int)[0] == b@[i as int]);
        }
        if ca == cb {
            proof {
                assert(a@.skip(i as int).drop_first() =~= a@.skip(i + 1));
                assert(b@.skip(i as int).drop_first() =~= b@.skip(i + 1));
            }
            i = i + 1;
        } else if (ca as u32) < (cb as u32) {
            return true;
        } else {
            return false;
        }
    }
    proof {
        if i == alen {
            assert(a@.skip(i as int) =~= Seq::<char>::empty());
        }
        if i == blen {
            assert(b@.skip(i as int) =~= Seq::<char>::empty());
        }
    }
    alen < blen
}

/// Whether `s` starts with the prefix `p`.
pub fn str_has_prefix(s: &str, p: &str) -> (r: bool)
    ensures
        r == has_prefix(s@, p@),
{
    let slen = s.unicode_len();
    let plen = p.unicode_len();
    if plen > slen {
        return false;
    }
    let mut i: usize = 0;
    while i < plen
        invariant
            slen == s@.len(),
            plen == p@.len(),
            plen <= slen,
            i <= plen,
            forall|j: int| 0 <= j < i ==> s@[j] == p@[j],
        decreases plen - i,
    {
        if s.get_char(i) != p.get_char(i) {
            proof {
                assert(s@.take(plen as int)[i as int] != p@[i as int]);
            }
            return false;
        }
        i = i + 1;
    }
    proof {
        assert(s@.take(plen as int) =~= p@);
    }
    true
}

/// Whether `s` ends with the suffix `p`.
pub fn str_has_suffix(s: &str, p: &str) -> (r: bool)
    ensures
        r == has_suffix(s@, p@),
{
    let slen = s.unicode_len();
    let plen = p.unicode_len();
    if plen > slen {
        return false;
    }
    let off = slen - plen;
    let mut i: usize = 0;
    while i < plen
        invariant
            slen == s@.len(),
            plen == p@.len(),
            plen <= slen,
            off == slen - plen,
            i <= plen,
            forall|j: int| 0 <= j < i ==> s@[off + j] == p@[j],
        decreases plen - i,
    {
        if s.get_char(off + i) != p.get_char(i) {
            proof {
                assert(s@.skip(off as int)[i as int] != p@[i as int]);
            }
            return false;
        }
        i = i + 1;
    }
    proof {
        assert(s@.skip(off as int) =~= p@);
    }
    true
}

/// Whether two string slices hold the same characters.
pub fn str_eq(a: &str, b: &str) -> (r: bool)
    ensures
        r == (a@ == b@),
{
    let alen = a.unicode_len();
    let blen = b.unicode_len();
    if alen != blen {
        return false;
    }
    let r = str_has_prefix(a, b);
    proof {
        if r {
            assert(a@.take(b@.len() as int) =~= a@);
        } else {
            assert(a@.take(b@.len() as int) =~= a@);
        }
    }
    r
}

/// Whether the character `c` occurs in `s`.
pub fn str_contains_char(s: &str, c: char) -> (r: bool)
    ensures
        r == s@.contains(c),
{
    let slen = s.unicode_len();
    let mut i: usize = 0;
    while i < slen
        invariant
            slen == s@.len(),
            i <= slen,
            forall|k: int| 0 <= k < i ==> s@[k] != c,
        decreases slen - i,
    {
        if s.get_char(i) == c {
            proof {
                assert(s@[i as int] == c);
            }
            return true;
        }
        i = i + 1;
    }
    false
}

/// Whether `p` occurs anywhere in `s`.
pub fn str_contains(s: &str, p: &str) -> (r: bool)
    ensures
        r == contains_seq(s@, p@),
{
    let slen = s.unicode_len();
    let plen = p.unicode_len();
    if plen > slen {
        return false;
    }
    let bound = slen - plen;
    let mut start: usize = 0;
    while start <= bound
        invariant
            slen == s@.len(),
            plen == p@.len(),
            plen <= slen,
            bound == slen - plen,
            start <= bound + 1,
            forall|i: int|
                0 <= i < start ==> #[trigger] s@.subrange(i, i + p@.len() as int) != p@,
        decreases slen - start,
    {
        let mut j: usize = 0;
        let mut matched: bool = true;
        while j < plen
            invariant
                slen == s@.len(),
                plen == p@.len(),
                start + plen <= slen,
                start <= bound,
                bound == slen - plen,
                j <= plen,
                matched == (forall|k: int| 0 <= k < j ==> s@[start + k] == p@[k]),
            decreases plen - j,
        {
            if s.get_char(start + j) != p.get_char(j) {
                matched = false;
                proof {
                    assert(s@[start + j as int] != p@[j as int]);
                }
                j = plen;
            } else {
                j = j + 1;
            }
        }
        if matched {
            proof {
                assert(s@.subrange(start as int, start + p@.len() as int) =~= p@);
            }
            return true;
        }
        proof {
            let st = start as int;
            assert(exists|k: int|
                0 <= k < plen && s@.subrange(st, st + p@.len() as int)[k] != p@[k]);
            assert(s@.subrange(st, st + p@.len() as int) != p@);
        }
        start = start + 1;
    }
    proof {
        assert forall|i: int| 0 <= i && i + p@.len() <= s@.len() implies #[trigger] s@.subrange(
            i,
            i + p@.len() as int,
        ) != p@ by {
            assert(i < start);
        }
    }
    false
}

/// Splitting a character sequence at every occurrence of `sep`; the separator
/// is dropped and empty pieces are kept, so the result always has one more
/// piece than there are separators.
pub open spec fn spec_split(s: Seq<char>, sep: char) -> Seq<Seq<char>>
    decreases s.len(),
{
    if s.len() == 0 {
        seq![Seq::<char>::empty()]
    } else if s[0] == sep {
        seq![Seq::<char>::empty()] + spec_split(s.drop_first(), sep)
    } else {
        let rest = spec_split(s.drop_first(), sep);
        seq![seq![s[0]] + rest[0]] + rest.drop_first()
    }
}

pub proof fn lemma_split_nonempty(s: Seq<char>, sep: char)
    ensures
        spec_split(s, sep).len() >= 1,
    decreases s.len(),
{
    if s.len() != 0 {
        lemma_split_nonempty(s.drop_first(), sep);
    }
}

/// Splits `s` at every occurrence of `sep`, keeping empty pieces.
pub fn split_char(s: &str, sep: char) -> (r: Vec<String>)
    ensures
        r.deep_view() == spec_split(s@, sep),
{
    let slen = s.unicode_len();
    let mut done: Vec<String> = Vec::new();
    let mut cur = String::new();
    let mut i: usize = 0;
    proof {
        lemma_split_nonempty(s@, sep);
        assert(s@.skip(0) =~= s@);
        assert(done.deep_view() =~= Seq::<Seq<char>>::empty());
        assert(cur@ + spec_split(s@.skip(0), sep)[0] =~= spec_split(s@.skip(0), sep)[0]);
        assert(spec_split(s@, sep) =~= seq![spec_split(s@, sep)[0]] + spec_split(
            s@,
            sep,
        ).drop_first());
    }
    while i < slen
        invariant
            slen == s@.len(),
            i <= slen,
            forall|k: int| 0 <= k < cur@.len() ==> cur@[k] != sep,
            spec_split(s@, sep) =~= done.deep_view() + seq![
                cur@ + spec_split(s@.skip(i as int), sep)[0],
            ] + spec_split(s@.skip(i as int), sep).drop_first(),
        decreases slen - i,
    {
        proof {
            lemma_split_nonempty(s@.skip(i as int), sep);
            assert(s@.skip(i as int)[0] == s@[i as int]);
            assert(s@.skip(i as int).drop_first() =~= s@.skip(i + 1));
        }
        let c = s.get_char(i);
        if c == sep {
            let ghost old_done = done.deep_view();
            let ghost old_cur = cur@;
            done.push(cur);
            cur = String::new();
            proof {
                assert(done.deep_view() =~= old_done + seq![old_cur]);
                lemma_split_nonempty(s@.skip(i + 1), sep);
                assert(spec_split(s@.skip(i as int), sep) =~= seq![Seq::<char>::empty()]
                    + spec_split(s@.skip(i + 1), sep));
                assert(old_cur + spec_split(s@.skip(i as int), sep)[0] =~= old_cur);
                assert((done.deep_view() + seq![
                    cur@ + spec_split(s@.skip(i + 1), sep)[0],
                ] + spec_split(s@.skip(i + 1), sep).drop_first()) =~= (old_done + seq![
                    old_cur + spec_split(s@.skip(i as int), sep)[0],
                ] + spec_split(s@.skip(i as int), sep).drop_first()));
            }
        } else {
            let piece = s.substring_char(i, i + 1);
            let ghost old_cur = cur@;
            cur.append(piece);
            proof {
                assert(piece@ =~= seq![s@[i as int]]);
                lemma_split_nonempty(s@.skip(i + 1), sep);
                let rest = spec_split(s@.skip(i + 1), sep);
                assert(spec_split(s@.skip(i as int), sep) =~= seq![seq![s@[i as int]] + rest[0]]
                    + rest.drop_first());
                assert(spec_split(s@.skip(i as int), sep)[0] == seq![s@[i as int]] + rest[0]);
                assert(spec_split(s@.skip(i as int), sep).drop_first() =~= rest.drop_first());
                assert(old_cur + (seq![s@[i as int]] + rest[0]) =~= cur@ + rest[0]);
            }
        }
        i = i + 1;
    }
    proof {
        assert(s@.skip(i as int) =~= Seq::<char>::empty());
        assert(spec_split(Seq::<char>::empty(), sep) =~= seq![Seq::<char>::empty()]);
        assert(cur@ + Seq::<char>::empty() =~= cur@);
    }
    let ghost old_done = done.deep_view();
    done.push(cur);
    proof {
        assert(done.deep_view() =~= old_done + seq![cur@]);
        assert(spec_split(s@, sep) =~= done.deep_view());
    }
    done
}

/// Joining pieces with a separator between consecutive pieces.
pub open spec fn spec_join(parts: Seq<Seq<char>>, sep: Seq<char>) -> Seq<char>
    decreases parts.len(),
{
    if parts.len() == 0 {
        Seq::<char>::empty()
    } else if parts.len() == 1 {
        parts[0]
    } else {
        parts[0] + sep + spec_join(parts.drop_first(), sep)
    }
}

/// Appending one more piece extends the join by a separator and that piece.
proof fn lemma_join_push(s: Seq<Seq<char>>, x: Seq<char>, sep: Seq<char>)
    ensures
        spec_join(s.push(x), sep) == if s.len() == 0 {
            x
        } else {
            spec_join(s, sep) + sep + x
        },
    decreases s.len(),
{
    if s.len() == 0 {
        assert(s.push(x)[0] == x);
        assert(spec_join(s.push(x), sep) == x);
    } else if s.len() == 1 {
        assert(s.push(x).drop_first() =~= seq![x]);
        assert(s.push(x)[0] == s[0]);
        assert(spec_join(seq![x], sep) == x);
        assert(spec_join(s, sep) == s[0]);
        assert(spec_join(s.push(x), sep) == s[0] + sep + x);
    } else {
        assert(s.push(x).drop_first() =~= s.drop_first().push(x));
        lemma_join_push(s.drop_first(), x, sep);
        assert(s.push(x)[0] == s[0]);
        assert(s[0] + sep + (spec_join(s.drop_first(), sep) + sep + x) =~= (s[0] + sep
            + spec_join(s.drop_first(), sep)) + sep + x);
    }
}

/// Joins the pieces with `sep` between consecutive pieces.
pub fn join_strings(parts: &Vec<String>, sep: &str) -> (r: String)
    ensures
        r@ == spec_join(parts.deep_view(), sep@),
{
    let mut out = String::new();
    let n = parts.len();
    let mut i: usize = 0;
    while i < n
        invariant
            n == parts@.len(),
            i <= n,
            out@ == spec_join(parts.deep_view().take(i as int), sep@),
        decreases n - i,
    {
        let ghost before = parts.deep_view().take(i as int);
        if i > 0 {
            out.append(sep);
        }
        out.append(parts[i].as_str());
        proof {
            lemma_join_push(before, parts.deep_view()[i as int], sep@);
            assert(parts.deep_view().take(i + 1) =~= before.push(parts.deep_view()[i as int]));
            if i == 0 {
                assert(out@ =~= parts.deep_view()[0]);
            }
        }
        i = i + 1;
    }
    proof {
        assert(parts.deep_view().take(n as int) =~= parts.deep_view());
    }
    out
}

/// The lexicographic order is asymmetric.
pub proof fn lemma_lex_lt_asymmetric(a: Seq<char>, b: Seq<char>)
    requires
        lex_lt(a, b),
    ensures
        !lex_lt(b, a),
    decreases a.len(),
{
    if a.len() > 0 && b.len() > 0 && a[0] == b[0] {
        lemma_lex_lt_asymmetric(a.drop_first(), b.drop_first());
    }
}

/// The lexicographic order is transitive.
pub proof fn lemma_lex_lt_transitive(a: Seq<char>, b: Seq<char>, c: Seq<char>)
    requires
        lex_lt(a, b),
        lex_lt(b, c),
    ensures
        lex_lt(a, c),
    decreases a.len(),
{
    if a.len() > 0 {
        if a[0] == b[0] && b[0] == c[0] {
            lemma_lex_lt_transitive(a.drop_first(), b.drop_first(), c.drop_first());
        }
    }
}

/// Removing a directory prefix `root` followed by a separator; anything
/// that does not start with that prefix is kept whole.
pub open spec fn spec_strip_root(path: Seq<char>, root: Seq<char>) -> Seq<char> {
    if has_prefix(path, root.push('/')) {
        path.skip(root.len() + 1 as int)
    } else {
        path
    }
}

/// Strips a leading `root` directory prefix from `path`.
pub fn strip_root(path: &str, root: &str) -> (r: String)
    ensures
        r@ == spec_strip_root(path@, root@),
{
    let mut root_slash = root.to_owned();
    root_slash.append("/");
    proof {
        reveal_strlit("/");
        assert(root_slash@ =~= root@.push('/'));
    }
    if str_has_prefix(path, root_slash.as_str()) {
        let plen = path.unicode_len();
        let rlen = root.unicode_len();
        let rest = path.substring_char(rlen + 1, plen);
        proof {
            assert(rest@ =~= path@.skip(root@.len() + 1 as int));
        }
        rest.to_owned()
    } else {
        path.to_owned()
    }
}

/// The lower-case hexadecimal digit for a value below sixteen.
pub open spec fn hex_digit(d: int) -> char {
    seq!['0', '1', '2', '3', '4', '5', '6', '7', '8', '9', 'a', 'b', 'c', 'd', 'e', 'f'][d]
}

/// Decimal notation of a non-negative integer, most significant digit first.
pub open spec fn spec_dec(n: int) -> Seq<char>
    decreases n,
{
    if n < 10 {
        seq![hex_digit(n)]
    } else {
        spec_dec(n / 10) + seq![hex_digit(n % 10)]
    }
}

/// A one-character string slice holding the given digit.
fn digit_str(d: u8) -> (r: &'static str)
    requires
        d < 16,
    ensures
        r@ =~= seq![hex_digit(d as int)],
{
    proof {
        reveal_strlit("0");
        reveal_strlit("1");
        reveal_strlit("2");
        reveal_strlit("3");
        reveal_strlit("4");
        reveal_strlit("5");
        reveal_strlit("6");
        reveal_strlit("7");
        reveal_strlit("8");
        reveal_strlit("9");
        reveal_strlit("a");
        reveal_strlit("b");
        reveal_strlit("c");
        reveal_strlit("d");
        reveal_strlit("e");
        reveal_strlit("f");
    }
    if d == 0 {
        "0"
    } else if d == 1 {
        "1"
    } else if d == 2 {
        "2"
    } else if d == 3 {
        "3"
    } else if d == 4 {
        "4"
    } else if d == 5 {
        "5"
    } else if d == 6 {
        "6"
    } else if d == 7 {
        "7"
    } else if d == 8 {
        "8"
    } else if d == 9 {
        "9"
    } else if d == 10 {
        "a"
    } else if d == 11 {
        "b"
    } else if d == 12 {
        "c"
    } else if d == 13 {
        "d"
    } else if d == 14 {
        "e"
    } else {
        "f"
    }
}

/// Writes `n` in decimal.
pub fn u64_to_dec(n: u64) -> (r: String)
    ensures
        r@ == spec_dec(n as int),
    decreases n,
{
    let d = (n % 10) as u8;
    let ds = digit_str(d);
    if n < 10 {
        ds.to_owned()
    } else {
        let mut prefix = u64_to_dec(n / 10);
        prefix.append(ds);
        proof {
            assert(prefix@ =~= spec_dec(n as int));
        }
        prefix
    }
}

/// Writes `n + 1` in decimal, for any `n`.
pub fn dec_succ(n: u64) -> (r: String)
    ensures
        r@ == spec_dec(n as int + 1),
{
    if n < u64::MAX {
        u64_to_dec(n + 1)
    } else {
        let mut s = u64_to_dec(1844674407370955161u64);
        s.append("6");
        proof {
            reveal_strlit("6");
            assert((n as int + 1) / 10 == 1844674407370955161int);
            assert((n as int + 1) % 10 == 6int);
            assert("6"@ =~= seq![hex_digit(6)]);
            assert(s@ =~= spec_dec(n as int + 1));
        }
        s
    }
}

/// Two lower-case hexadecimal digits of a byte.
pub open spec fn spec_hex2(b: int) -> Seq<char> {
    seq![hex_digit(b / 16), hex_digit(b % 16)]
}

/// Writes a byte as exactly two lower-case hexadecimal digits.
pub fn u8_to_hex2(b: u8) -> (r: String)
    ensures
        r@ == spec_hex2(b as int),
{
    let hi = digit_str(b / 16);
    let mut out = hi.to_owned();
    out.append(digit_str(b % 16));
    proof {
        assert(out@ =~= spec_hex2(b as int));
    }
    out
}

} // verus!
