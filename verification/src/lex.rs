//! Tokenization and numeric literals.
//!
//! Program text is split on ASCII spaces; each piece is trimmed of ASCII
//! whitespace.  Empty tokens (from consecutive separators) are kept: the
//! evaluator tolerates and skips them.  A numeric literal is an optional
//! sign followed by one or more decimal digits, and must fit in a signed
//! 32-bit integer.

use vstd::prelude::*;

use crate::model::Tok;

verus! {

/// ASCII whitespace: what trimming removes from a token's ends.
pub open spec fn is_space_char(c: char) -> bool {
    c == ' ' || c == '\t' || c == '\n' || c == '\r' || c == '\u{b}' || c == '\u{c}'
}

/// A token of nothing but whitespace; the evaluator skips these.
pub open spec fn is_blank(t: Tok) -> bool {
    forall|j: int| 0 <= j < t.len() ==> is_space_char(#[trigger] t[j])
}

/// Index of the first ASCII space, if any.
pub open spec fn first_space(s: Seq<char>) -> Option<int>
    decreases s.len(),
{
    if s.len() == 0 {
        None
    } else if s[0] == ' ' {
        Some(0int)
    } else {
        match first_space(s.drop_first()) {
            None => None,
            Some(i) => Some(i + 1),
        }
    }
}

/// Leading whitespace dropped.
pub open spec fn trim_start(s: Seq<char>) -> Seq<char>
    decreases s.len(),
{
    if s.len() > 0 && is_space_char(s[0]) {
        trim_start(s.drop_first())
    } else {
        s
    }
}

/// Trailing whitespace dropped.
pub open spec fn trim_end(s: Seq<char>) -> Seq<char>
    decreases s.len(),
{
    if s.len() > 0 && is_space_char(s.last()) {
        trim_end(s.drop_last())
    } else {
        s
    }
}

/// Whitespace dropped from both ends.
pub open spec fn spec_trim(s: Seq<char>) -> Seq<char> {
    trim_end(trim_start(s))
}

/// The token sequence of a program text: split on ASCII spaces, each piece
/// trimmed.
pub open spec fn spec_tokenize(s: Seq<char>) -> Seq<Tok>
    decreases s.len(),
    via spec_tokenize_decreases
{
    match first_space(s) {
        None => seq![spec_trim(s)],
        Some(i) => seq![spec_trim(s.take(i))] + spec_tokenize(s.skip(i + 1)),
    }
}

/// `first_space` returns an in-bounds index of a space.
pub proof fn lemma_first_space_bounds(s: Seq<char>)
    ensures
        match first_space(s) {
            None => true,
            Some(i) => 0 <= i < s.len() && s[i] == ' ',
        },
    decreases s.len(),
{
    if s.len() > 0 && s[0] != ' ' {
        lemma_first_space_bounds(s.drop_first());
    }
}

#[via_fn]
proof fn spec_tokenize_decreases(s: Seq<char>) {
    lemma_first_space_bounds(s);
}

/// The first in-bounds space with no space before it is what `first_space`
/// finds.
pub proof fn lemma_first_space_found(s: Seq<char>, i: int)
    requires
        0 <= i < s.len(),
        s[i] == ' ',
        forall|j: int| 0 <= j < i ==> s[j] != ' ',
    ensures
        first_space(s) == Some(i),
    decreases i,
{
    if i > 0 {
        lemma_first_space_found(s.drop_first(), i - 1);
    }
}

/// With no space at all, `first_space` finds nothing.
pub proof fn lemma_first_space_none(s: Seq<char>)
    requires
        forall|j: int| 0 <= j < s.len() ==> s[j] != ' ',
    ensures
        first_space(s) is None,
    decreases s.len(),
{
    if s.len() > 0 {
        lemma_first_space_none(s.drop_first());
    }
}

/// Dropping a fully-whitespace prefix is what `trim_start` does.
pub proof fn lemma_trim_start_at(s: Seq<char>, a: int)
    requires
        0 <= a <= s.len(),
        forall|j: int| 0 <= j < a ==> is_space_char(#[trigger] s[j]),
        a < s.len() ==> !is_space_char(s[a]),
    ensures
        trim_start(s) == s.skip(a),
    decreases a,
{
    if a == 0 {
        assert(s.skip(0) =~= s);
    } else {
        lemma_trim_start_at(s.drop_first(), a - 1);
        assert(s.drop_first().skip(a - 1) =~= s.skip(a));
    }
}

/// Dropping a fully-whitespace suffix is what `trim_end` does.
pub proof fn lemma_trim_end_at(s: Seq<char>, b: int)
    requires
        0 <= b <= s.len(),
        forall|j: int| b <= j < s.len() ==> is_space_char(#[trigger] s[j]),
        b > 0 ==> !is_space_char(s[b - 1]),
    ensures
        trim_end(s) == s.take(b),
    decreases s.len(),
{
    if b == s.len() {
        assert(s.take(b) =~= s);
    } else {
        lemma_trim_end_at(s.drop_last(), b);
        assert(s.drop_last().take(b) =~= s.take(b));
    }
}

/// Whether a character is ASCII whitespace.
pub fn is_space(c: char) -> (r: bool)
    ensures
        r == is_space_char(c),
{
    c == ' ' || c == '\t' || c == '\n' || c == '\r' || c == '\u{b}' || c == '\u{c}'
}

/// Whether a token is nothing but whitespace.
pub fn is_blank_tok(t: &String) -> (r: bool)
    ensures
        r == is_blank(t@),
{
    let n = t.as_str().unicode_len();
    let mut j: usize = 0;
    while j < n
        invariant
            j <= n,
            n == t@.len(),
            forall|k: int| 0 <= k < j ==> is_space_char(#[trigger] t@[k]),
        decreases n - j,
    {
        if !is_space(t.as_str().get_char(j)) {
            assert(!is_blank(t@));
            return false;
        }
        j += 1;
    }
    true
}

/// Whether the characters of `a` and `b` are the same.
pub fn str_eq(a: &str, b: &str) -> (r: bool)
    ensures
        r == (a@ == b@),
{
    let n = a.unicode_len();
    if n != b.unicode_len() {
        return false;
    }
    let mut j: usize = 0;
    while j < n
        invariant
            j <= n,
            n == a@.len(),
            n == b@.len(),
            forall|k: int| 0 <= k < j ==> a@[k] == b@[k],
        decreases n - j,
    {
        if a.get_char(j) != b.get_char(j) {
            return false;
        }
        j += 1;
    }
    proof {
        assert(a@ =~= b@);
    }
    true
}

/// Whether a token's characters are exactly those of `kw`.
pub fn tok_is(t: &String, kw: &str) -> (r: bool)
    ensures
        r == (t@ == kw@),
{
    str_eq(t.as_str(), kw)
}

/// Split `expr` on ASCII spaces and trim each piece.
pub fn tokenize(expr: &str) -> (r: Vec<String>)
    ensures
        r@.map_values(|t: String| t@) == spec_tokenize(expr@),
{
    let n = expr.unicode_len();
    let mut toks: Vec<String> = Vec::new();
    let mut pos: usize = 0;
    proof {
        assert(expr@.skip(0) =~= expr@);
        assert(toks@.map_values(|t: String| t@) + spec_tokenize(expr@) =~= spec_tokenize(expr@));
    }
    loop
        invariant
            pos <= n,
            n == expr@.len(),
            spec_tokenize(expr@) == toks@.map_values(|t: String| t@) + spec_tokenize(
                expr@.skip(pos as int),
            ),
        decreases n - pos,
    {
        // Scan the current segment: up to the next space, or to the end.
        let mut en: usize = pos;
        while en < n && expr.get_char(en) != ' '
            invariant
                pos <= en <= n,
                n == expr@.len(),
                forall|k: int| pos <= k < en ==> expr@[k] != ' ',
            decreases n - en,
        {
            en += 1;
        }
        // Trim the segment.
        let mut a: usize = pos;
        while a < en && is_space(expr.get_char(a))
            invariant
                pos <= a <= en <= n,
                n == expr@.len(),
                forall|k: int| pos <= k < a ==> is_space_char(#[trigger] expr@[k]),
            decreases en - a,
        {
            a += 1;
        }
        let mut b: usize = en;
        while b > a && is_space(expr.get_char(b - 1))
            invariant
                a <= b <= en <= n,
                n == expr@.len(),
                forall|k: int| b <= k < en ==> is_space_char(#[trigger] expr@[k]),
            decreases b,
        {
            b -= 1;
        }
        let tok: String = expr.substring_char(a, b).to_owned();
        proof {
            let seg = expr@.skip(pos as int).take(en - pos);
            assert(seg =~= expr@.subrange(pos as int, en as int));
            lemma_trim_start_at(seg, a - pos);
            assert(seg.skip(a - pos) =~= expr@.subrange(a as int, en as int));
            lemma_trim_end_at(expr@.subrange(a as int, en as int), b - a);
            assert(expr@.subrange(a as int, en as int).take(b - a) =~= expr@.subrange(
                a as int,
                b as int,
            ));
            assert(spec_trim(seg) == tok@);
        }
        let ghost old_toks = toks@;
        toks.push(tok);
        proof {
            assert(toks@.map_values(|t: String| t@) =~= old_toks.map_values(|t: String| t@)
                + seq![tok@]);
        }
        if en == n {
            proof {
                let suffix = expr@.skip(pos as int);
                lemma_first_space_none(suffix);
                assert(suffix.take(suffix.len() as int) =~= suffix);
                assert(spec_tokenize(suffix) == seq![spec_trim(suffix)]);
                assert(toks@.map_values(|t: String| t@) =~= old_toks.map_values(|t: String| t@)
                    + spec_tokenize(suffix));
            }
            return toks;
        }
        proof {
            let suffix = expr@.skip(pos as int);
            lemma_first_space_found(suffix, en - pos);
            assert(suffix.skip(en - pos + 1) =~= expr@.skip(en + 1));
            assert(spec_tokenize(suffix) == seq![spec_trim(suffix.take(en - pos))] + spec_tokenize(
                expr@.skip(en + 1),
            ));
            assert(toks@.map_values(|t: String| t@) + spec_tokenize(expr@.skip(en + 1)) =~= (
            old_toks.map_values(|t: String| t@) + spec_tokenize(suffix)));
        }
        pos = en + 1;
    }
}

/// Whether a character is a decimal digit.
pub open spec fn is_digit(c: char) -> bool {
    '0' <= c && c <= '9'
}

/// The value of one decimal digit.
pub open spec fn digit_val(c: char) -> int {
    c as int - '0' as int
}

/// All characters are decimal digits.
pub open spec fn all_digits(s: Seq<char>) -> bool {
    forall|j: int| 0 <= j < s.len() ==> is_digit(#[trigger] s[j])
}

/// The value of a digit string read in base 10.
pub open spec fn digits_val(s: Seq<char>) -> int
    decreases s.len(),
{
    if s.len() == 0 {
        0
    } else {
        digits_val(s.drop_last()) * 10 + digit_val(s.last())
    }
}

/// What parsing a token as a signed 32-bit numeric literal yields: an
/// optional sign, then one or more digits, with the value in range.
pub open spec fn spec_parse_i32(s: Seq<char>) -> Option<i32> {
    let neg = s.len() > 0 && s[0] == '-';
    let ds = if s.len() > 0 && (s[0] == '-' || s[0] == '+') {
        s.drop_first()
    } else {
        s
    };
    if ds.len() == 0 || !all_digits(ds) {
        None
    } else {
        let v = if neg {
            -digits_val(ds)
        } else {
            digits_val(ds)
        };
        if i32::MIN <= v && v <= i32::MAX {
            Some(v as i32)
        } else {
            None
        }
    }
}

/// A digit string's value is never negative.
pub proof fn lemma_digits_val_nonneg(s: Seq<char>)
    requires
        all_digits(s),
    ensures
        digits_val(s) >= 0,
    decreases s.len(),
{
    if s.len() > 0 {
        lemma_digits_val_nonneg(s.drop_last());
    }
}

/// Reading more digits never shrinks the value.
pub proof fn lemma_digits_val_prefix(s: Seq<char>, i: int)
    requires
        all_digits(s),
        0 <= i <= s.len(),
    ensures
        digits_val(s.take(i)) <= digits_val(s),
    decreases s.len() - i,
{
    if i < s.len() {
        lemma_digits_val_prefix(s.drop_last(), i);
        assert(s.drop_last().take(i) =~= s.take(i));
        lemma_digits_val_nonneg(s.drop_last());
    } else {
        assert(s.take(i) =~= s);
    }
}

/// Parse a token as a signed 32-bit numeric literal.
pub fn parse_i32(t: &String) -> (r: Option<i32>)
    ensures
        r == spec_parse_i32(t@),
{
    let n = t.as_str().unicode_len();
    if n == 0 {
        return None;
    }
    let c0 = t.as_str().get_char(0);
    let neg = c0 == '-';
    let start: usize = if c0 == '-' || c0 == '+' {
        1
    } else {
        0
    };
    let ghost ds = if start == 1 {
        t@.drop_first()
    } else {
        t@
    };
    proof {
        assert(ds =~= t@.subrange(start as int, n as int));
    }
    if start >= n {
        return None;
    }
    let mut i: usize = start;
    let mut mag: u64 = 0;
    while i < n
        invariant
            start <= i <= n,
            n == t@.len(),
            start <= 1,
            n > 0,
            start < n,
            (start == 1) == (t@[0] == '-' || t@[0] == '+'),
            neg == (t@[0] == '-'),
            ds == t@.subrange(start as int, n as int),
            ds == (if t@[0] == '-' || t@[0] == '+' { t@.drop_first() } else { t@ }),
            all_digits(t@.subrange(start as int, i as int)),
            mag == digits_val(t@.subrange(start as int, i as int)),
            mag <= 0x8000_0000,
        decreases n - i,
    {
        let c = t.as_str().get_char(i);
        if !('0' <= c && c <= '9') {
            proof {
                assert(ds[i - start] == c);
                assert(!is_digit(c));
                assert(!all_digits(ds));
                assert(spec_parse_i32(t@) is None);
            }
            return None;
        }
        let d: u64 = (c as u32 - '0' as u32) as u64;
        let newmag: u64 = mag * 10 + d;
        proof {
            assert(t@.subrange(start as int, i + 1) =~= t@.subrange(start as int, i as int).push(
                c,
            ));
            assert(t@.subrange(start as int, i + 1).drop_last() =~= t@.subrange(
                start as int,
                i as int,
            ));
        }
        if newmag > 0x8000_0000 {
            proof {
                assert(digit_val(c) == d);
                assert(digits_val(t@.subrange(start as int, i + 1)) == mag * 10 + d);
                if all_digits(ds) {
                    assert(ds.take(i + 1 - start) =~= t@.subrange(start as int, i + 1));
                    lemma_digits_val_prefix(ds, i + 1 - start);
                    assert(digits_val(ds) > 0x8000_0000);
                }
                assert(spec_parse_i32(t@) is None);
            }
            return None;
        }
        mag = newmag;
        i += 1;
    }
    proof {
        assert(t@.subrange(start as int, n as int) =~= ds);
    }
    if neg {
        if mag == 0x8000_0000 {
            Some(i32::MIN)
        } else {
            Some(-(mag as i32))
        }
    } else {
        if mag > 0x7FFF_FFFF {
            return None;
        }
        Some(mag as i32)
    }
}

/// Whether a token may serve as a name: anything that is not a numeric
/// literal.
pub fn valid_forth_name(name: &String) -> (r: bool)
    ensures
        r == (spec_parse_i32(name@) is None),
{
    let p = parse_i32(name);
    p.is_none()
}

} // verus!


