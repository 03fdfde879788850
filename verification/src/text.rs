use vstd::prelude::*;
use vstd::string::StrSliceExecFns;

verus! {

// ---------------------------------------------------------------------------
// Character classes
// ---------------------------------------------------------------------------

/// ASCII whitespace, the class the due-date grammar trims.
pub open spec fn is_ascii_space(c: char) -> bool {
    c == ' ' || c == '\t' || c == '\n' || c == '\r' || c == '\u{b}' || c == '\u{c}'
}

fn is_space(c: char) -> (r: bool)
    ensures
        r == is_ascii_space(c),
{
    c == ' ' || c == '\t' || c == '\n' || c == '\r' || c == '\u{b}' || c == '\u{c}'
}

pub open spec fn is_digit_char(c: char) -> bool {
    48 <= c as u32 && c as u32 <= 57
}

pub open spec fn digit_val(c: char) -> nat {
    (c as u32 - 48) as nat
}

// ---------------------------------------------------------------------------
// Trimming
// ---------------------------------------------------------------------------

pub open spec fn trim_start_spec(s: Seq<char>) -> Seq<char>
    decreases s.len(),
{
    if s.len() > 0 && is_ascii_space(s[0]) {
        trim_start_spec(s.skip(1))
    } else {
        s
    }
}

pub open spec fn trim_end_spec(s: Seq<char>) -> Seq<char>
    decreases s.len(),
{
    if s.len() > 0 && is_ascii_space(s.last()) {
        trim_end_spec(s.drop_last())
    } else {
        s
    }
}

/// ASCII whitespace removed from both ends.
pub open spec fn trim_spec(s: Seq<char>) -> Seq<char> {
    trim_end_spec(trim_start_spec(s))
}

pub fn trim_start(s: &str) -> (r: &str)
    ensures
        r@ == trim_start_spec(s@),
    decreases s@.len(),
{
    let n = s.unicode_len();
    if n > 0 && is_space(s.get_char(0)) {
        let rest = s.substring_char(1, n);
        proof {
            assert(rest@ =~= s@.skip(1));
        }
        trim_start(rest)
    } else {
        s
    }
}

pub fn trim_end(s: &str) -> (r: &str)
    ensures
        r@ == trim_end_spec(s@),
    decreases s@.len(),
{
    let n = s.unicode_len();
    if n > 0 && is_space(s.get_char(n - 1)) {
        let rest = s.substring_char(0, n - 1);
        proof {
            assert(rest@ =~= s@.drop_last());
        }
        trim_end(rest)
    } else {
        s
    }
}

pub fn trim(s: &str) -> (r: &str)
    ensures
        r@ == trim_spec(s@),
{
    trim_end(trim_start(s))
}

// ---------------------------------------------------------------------------
// The "days" suffix of relative due dates
// ---------------------------------------------------------------------------

pub open spec fn ends_with_days(s: Seq<char>) -> bool {
    &&& s.len() >= 4
    &&& s[s.len() - 4] == 'd'
    &&& s[s.len() - 3] == 'a'
    &&& s[s.len() - 2] == 'y'
    &&& s[s.len() - 1] == 's'
}

/// Every trailing repetition of the literal word `days` removed.
pub open spec fn strip_days_spec(s: Seq<char>) -> Seq<char>
    decreases s.len(),
{
    if ends_with_days(s) {
        strip_days_spec(s.take(s.len() - 4))
    } else {
        s
    }
}

pub fn strip_days(s: &str) -> (r: &str)
    ensures
        r@ == strip_days_spec(s@),
    decreases s@.len(),
{
    let n = s.unicode_len();
    if n >= 4 && s.get_char(n - 4) == 'd' && s.get_char(n - 3) == 'a' && s.get_char(n - 2) == 'y'
        && s.get_char(n - 1) == 's' {
        let rest = s.substring_char(0, n - 4);
        proof {
            assert(rest@ =~= s@.take(s@.len() - 4));
        }
        strip_days(rest)
    } else {
        s
    }
}

// ---------------------------------------------------------------------------
// Decimal integer parsing
// ---------------------------------------------------------------------------

pub open spec fn all_digits(s: Seq<char>) -> bool {
    forall|i: int| 0 <= i < s.len() ==> is_digit_char(s[i])
}

/// The value of a digit string read in base ten.
pub open spec fn digits_val(s: Seq<char>) -> nat
    decreases s.len(),
{
    if s.len() == 0 {
        0
    } else {
        digits_val(s.drop_last()) * 10 + digit_val(s.last())
    }
}

/// What `str::parse::<i64>` accepts: an optional sign, then one or more
/// decimal digits, the value within the range of `i64`.
pub open spec fn parse_i64_spec(s: Seq<char>) -> Option<i64> {
    if s.len() == 0 {
        None
    } else {
        let neg = s[0] == '-';
        let ds = if s[0] == '-' || s[0] == '+' {
            s.skip(1)
        } else {
            s
        };
        if ds.len() > 0 && all_digits(ds) {
            if neg {
                if digits_val(ds) <= i64::MAX as nat + 1 {
                    Some((-(digits_val(ds) as int)) as i64)
                } else {
                    None
                }
            } else {
                if digits_val(ds) <= i64::MAX as nat {
                    Some(digits_val(ds) as i64)
                } else {
                    None
                }
            }
        } else {
            None
        }
    }
}

/// Parse a decimal integer exactly as `str::parse::<i64>` does.
pub fn parse_i64(s: &str) -> (r: Option<i64>)
    ensures
        r == parse_i64_spec(s@),
{
    let n = s.unicode_len();
    if n == 0 {
        return None;
    }
    let c0 = s.get_char(0);
    let neg = c0 == '-';
    let signed = c0 == '-' || c0 == '+';
    let start: usize = if signed {
        1
    } else {
        0
    };
    let ghost ds = if signed {
        s@.skip(1)
    } else {
        s@
    };
    if n == start {
        return None;
    }
    let mut acc: u64 = 0;
    let mut over = false;
    let mut i: usize = start;
    while i < n
        invariant
            start <= i <= n,
            n == s@.len(),
            n > start,
            start == (if signed {
                1int
            } else {
                0int
            }),
            signed == (s@[0] == '-' || s@[0] == '+'),
            ds == (if signed {
                s@.skip(1)
            } else {
                s@
            }),
            ds.len() == n - start,
            all_digits(ds.take(i - start)),
            !over ==> acc == digits_val(ds.take(i - start)) && acc <= 9223372036854775808u64,
            over ==> digits_val(ds.take(i - start)) > 9223372036854775808u64,
        decreases n - i,
    {
        let c = s.get_char(i);
        let v = c as u32;
        proof {
            assert(ds[i - start] == s@[i as int]);
        }
        if !(48 <= v && v <= 57) {
            assert(!is_digit_char(ds[i - start]));
            return None;
        }
        let d: u64 = (v - 48) as u64;
        proof {
            assert(ds.take(i - start + 1).drop_last() =~= ds.take(i - start));
            assert(ds.take(i - start + 1).last() == ds[i - start]);
        }
        if !over {
            if acc > 922337203685477580 {
                over = true;
                proof {
                    assert(digits_val(ds.take(i - start + 1)) == acc * 10 + d);
                }
            } else {
                acc = acc * 10 + d;
                if acc > 9223372036854775808 {
                    over = true;
                }
            }
        } else {
            proof {
                assert(digits_val(ds.take(i - start + 1)) == digits_val(ds.take(i - start)) * 10
                    + digit_val(ds[i - start]));
            }
        }
        i += 1;
    }
    proof {
        assert(ds.take(i - start) =~= ds);
    }
    if over {
        return None;
    }
    if neg {
        if acc == 9223372036854775808 {
            Some(i64::MIN)
        } else {
            Some(-(acc as i64))
        }
    } else {
        if acc == 9223372036854775808 {
            None
        } else {
            Some(acc as i64)
        }
    }
}

// ---------------------------------------------------------------------------
// Equality and case-insensitive equality
// ---------------------------------------------------------------------------

/// The code point with ASCII letters taken to lower case.
pub open spec fn lower_code(c: char) -> int {
    if 65 <= c as u32 && c as u32 <= 90 {
        c as u32 + 32
    } else {
        c as u32 as int
    }
}

/// Equality up to ASCII case.
pub open spec fn ieq(a: Seq<char>, b: Seq<char>) -> bool {
    a.len() == b.len() && forall|i: int| 0 <= i < a.len() ==> lower_code(a[i]) == lower_code(b[i])
}

pub fn eq_ignore_ascii_case(a: &str, b: &str) -> (r: bool)
    ensures
        r == ieq(a@, b@),
{
    let n = a.unicode_len();
    let m = b.unicode_len();
    if n != m {
        return false;
    }
    let mut i: usize = 0;
    while i < n
        invariant
            0 <= i <= n,
            n == a@.len(),
            n == b@.len(),
            forall|k: int| 0 <= k < i ==> lower_code(a@[k]) == lower_code(b@[k]),
        decreases n - i,
    {
        let ca = a.get_char(i) as u32;
        let cb = b.get_char(i) as u32;
        let la = if 65 <= ca && ca <= 90 {
            ca + 32
        } else {
            ca
        };
        let lb = if 65 <= cb && cb <= 90 {
            cb + 32
        } else {
            cb
        };
        if la != lb {
            return false;
        }
        i += 1;
    }
    true
}

/// Exact string equality, decided character by character.
pub fn str_eq(a: &str, b: &str) -> (r: bool)
    ensures
        r == (a@ == b@),
{
    let n = a.unicode_len();
    let m = b.unicode_len();
    if n != m {
        return false;
    }
    let mut i: usize = 0;
    while i < n
        invariant
            0 <= i <= n,
            n == a@.len(),
            n == b@.len(),
            forall|k: int| 0 <= k < i ==> a@[k] == b@[k],
        decreases n - i,
    {
        if a.get_char(i) != b.get_char(i) {
            return false;
        }
        i += 1;
    }
    proof {
        assert(a@ =~= b@);
    }
    true
}

// ---------------------------------------------------------------------------
// Lexicographic order on character sequences
// ---------------------------------------------------------------------------

/// Lexicographic order by code point, the order `Ord` on `String` gives.
pub open spec fn lex_le(a: Seq<char>, b: Seq<char>) -> bool
    decreases a.len(),
{
    if a.len() == 0 {
        true
    } else if b.len() == 0 {
        false
    } else if (a[0] as u32) < (b[0] as u32) {
        true
    } else if (a[0] as u32) > (b[0] as u32) {
        false
    } else {
        lex_le(a.skip(1), b.skip(1))
    }
}

pub open spec fn lex_lt(a: Seq<char>, b: Seq<char>) -> bool {
    lex_le(a, b) && a != b
}

pub proof fn lemma_lex_total(a: Seq<char>, b: Seq<char>)
    ensures
        lex_le(a, b) || lex_le(b, a),
    decreases a.len(),
{
    if a.len() > 0 && b.len() > 0 && a[0] as u32 == b[0] as u32 {
        lemma_lex_total(a.skip(1), b.skip(1));
    }
}

pub proof fn lemma_lex_antisym(a: Seq<char>, b: Seq<char>)
    requires
        lex_le(a, b),
        lex_le(b, a),
    ensures
        a == b,
    decreases a.len(),
{
    if a.len() == 0 {
        assert(b.len() == 0);
        assert(a =~= b);
    } else {
        assert(b.len() > 0);
        assert(a[0] as u32 == b[0] as u32);
        assert(a[0] == b[0]) by {
            vstd::utf8::char_u32_cast(a[0], a[0] as u32);
            vstd::utf8::char_u32_cast(b[0], b[0] as u32);
        }
        lemma_lex_antisym(a.skip(1), b.skip(1));
        assert(a =~= b) by {
            assert(a.len() == b.len());
            assert(forall|i: int| 1 <= i < a.len() ==> a[i] == a.skip(1)[i - 1] && b[i] == b.skip(
                1,
            )[i - 1]);
        }
    }
}

pub proof fn lemma_lex_trans(a: Seq<char>, b: Seq<char>, c: Seq<char>)
    requires
        lex_le(a, b),
        lex_le(b, c),
    ensures
        lex_le(a, c),
    decreases a.len(),
{
    if a.len() > 0 {
        assert(b.len() > 0);
        assert(c.len() > 0);
        if a[0] as u32 == b[0] as u32 && b[0] as u32 == c[0] as u32 {
            lemma_lex_trans(a.skip(1), b.skip(1), c.skip(1));
        }
    }
}

pub proof fn lemma_lex_lt_trans(a: Seq<char>, b: Seq<char>, c: Seq<char>)
    requires
        lex_lt(a, b),
        lex_lt(b, c),
    ensures
        lex_lt(a, c),
{
    lemma_lex_trans(a, b, c);
    if a == c {
        lemma_lex_antisym(a, b);
    }
}

pub fn str_lex_le(a: &str, b: &str) -> (r: bool)
    ensures
        r == lex_le(a@, b@),
    decreases a@.len(),
{
    let n = a.unicode_len();
    let m = b.unicode_len();
    if n == 0 {
        true
    } else if m == 0 {
        false
    } else {
        let ca = a.get_char(0) as u32;
        let cb = b.get_char(0) as u32;
        if ca < cb {
            true
        } else if ca > cb {
            false
        } else {
            let ra = a.substring_char(1, n);
            let rb = b.substring_char(1, m);
            proof {
                assert(ra@ =~= a@.skip(1));
                assert(rb@ =~= b@.skip(1));
            }
            str_lex_le(ra, rb)
        }
    }
}

// ---------------------------------------------------------------------------
// Splitting on commas
// ---------------------------------------------------------------------------

/// The segments of a string split on `,`, as `str::split(',')` yields them:
/// always at least one segment, and empty segments kept.
pub open spec fn split_commas_spec(s: Seq<char>) -> Seq<Seq<char>>
    decreases s.len(),
{
    if s.len() == 0 {
        seq![s]
    } else if s[0] == ',' {
        seq![Seq::<char>::empty()] + split_commas_spec(s.skip(1))
    } else {
        let rest = split_commas_spec(s.skip(1));
        seq![seq![s[0]] + rest[0]] + rest.skip(1)
    }
}

pub proof fn lemma_split_commas_len(s: Seq<char>)
    ensures
        split_commas_spec(s).len() >= 1,
    decreases s.len(),
{
    if s.len() > 0 {
        lemma_split_commas_len(s.skip(1));
    }
}

/// With no comma in sight the whole string is the single segment.
proof fn lemma_split_no_comma(s: Seq<char>)
    requires
        forall|i: int| 0 <= i < s.len() ==> s[i] != ',',
    ensures
        split_commas_spec(s) == seq![s],
    decreases s.len(),
{
    if s.len() == 0 {
    } else {
        lemma_split_no_comma(s.skip(1));
        lemma_split_commas_len(s.skip(1));
        assert(seq![s[0]] + s.skip(1) =~= s);
        assert(split_commas_spec(s) =~= seq![s]);
    }
}

/// Splitting at the first comma: the prefix is the first segment and the
/// rest is split on its own.
proof fn lemma_split_at_first_comma(s: Seq<char>, i: int)
    requires
        0 <= i < s.len(),
        s[i] == ',',
        forall|j: int| 0 <= j < i ==> s[j] != ',',
    ensures
        split_commas_spec(s) == seq![s.take(i)] + split_commas_spec(s.skip(i + 1)),
    decreases i,
{
    if i == 0 {
        assert(s.take(0) =~= Seq::<char>::empty());
        assert(split_commas_spec(s) =~= seq![s.take(0)] + split_commas_spec(s.skip(1)));
    } else {
        lemma_split_at_first_comma(s.skip(1), i - 1);
        lemma_split_commas_len(s.skip(1).skip(i));
        assert(s.skip(1).take(i - 1) =~= s.take(i).skip(1));
        assert(s.skip(1).skip(i) =~= s.skip(i + 1));
        assert(seq![s[0]] + s.take(i).skip(1) =~= s.take(i));
        assert(split_commas_spec(s) =~= seq![s.take(i)] + split_commas_spec(s.skip(i + 1)));
    }
}

/// Split a string on commas, keeping empty segments, as `str::split(',')`.
pub fn split_commas(s: &str) -> (r: Vec<String>)
    ensures
        r.deep_view() == split_commas_spec(s@),
    decreases s@.len(),
{
    let n = s.unicode_len();
    let mut i: usize = 0;
    while i < n
        invariant
            0 <= i <= n,
            n == s@.len(),
            forall|j: int| 0 <= j < i ==> s@[j] != ',',
        decreases n - i,
    {
        if s.get_char(i) == ',' {
            let head = s.substring_char(0, i);
            let tail = s.substring_char(i + 1, n);
            proof {
                assert(head@ =~= s@.take(i as int));
                assert(tail@ =~= s@.skip(i + 1));
                lemma_split_at_first_comma(s@, i as int);
            }
            let mut rest = split_commas(tail);
            rest.insert(0, head.to_owned());
            proof {
                assert(rest.deep_view() =~= seq![s@.take(i as int)] + split_commas_spec(
                    s@.skip(i + 1),
                ));
            }
            return rest;
        }
        i += 1;
    }
    proof {
        lemma_split_no_comma(s@);
    }
    let mut out: Vec<String> = Vec::new();
    out.push(s.to_owned());
    proof {
        assert(out.deep_view() =~= seq![s@]);
    }
    out
}

// ---------------------------------------------------------------------------
// Folding comma-separated tags into a duplicate-free sequence
// ---------------------------------------------------------------------------

/// Adding one tag to a tag list: ignored when already present.
pub open spec fn add_tag_view(tags: Seq<Seq<char>>, t: Seq<char>) -> Seq<Seq<char>> {
    if tags.contains(t) {
        tags
    } else {
        tags.push(t)
    }
}

/// The tag list after each segment, trimmed, is added in turn.
pub open spec fn fold_tags_view(init: Seq<Seq<char>>, segs: Seq<Seq<char>>) -> Seq<Seq<char>>
    decreases segs.len(),
{
    if segs.len() == 0 {
        init
    } else {
        add_tag_view(fold_tags_view(init, segs.drop_last()), trim_spec(segs.last()))
    }
}

/// The tags a comma-separated tag string denotes: split on commas, each
/// segment trimmed, duplicates silently ignored, first occurrence order kept.
pub open spec fn tags_of_text(s: Seq<char>) -> Seq<Seq<char>> {
    fold_tags_view(Seq::<Seq<char>>::empty(), split_commas_spec(s))
}

} // verus!
