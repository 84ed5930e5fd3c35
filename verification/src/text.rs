//! Character-level text utilities: case folding, substring search,
//! whitespace tokenization, lexicographic comparison, decimal conversion and
//! glob matching. All query-text comparisons in the engine are
//! case-insensitive over the ASCII range and are built from these functions.

use vstd::prelude::*;

verus! {

broadcast use vstd::std_specs::vec::group_vec_axioms;

/// ASCII case folding of one character; characters outside `A..=Z` are kept.
pub open spec fn spec_lower_char(c: char) -> char {
    if 'A' <= c && c <= 'Z' {
        (((c as u8) + 32) as char)
    } else {
        c
    }
}

/// ASCII case folding of a character sequence.
pub open spec fn spec_lower(s: Seq<char>) -> Seq<char> {
    s.map_values(|c: char| spec_lower_char(c))
}

pub fn lower_char(c: char) -> (r: char)
    ensures
        r == spec_lower_char(c),
{
    if 'A' <= c && c <= 'Z' {
        ((c as u8) + 32) as char
    } else {
        c
    }
}

/// The characters of a string slice, in order.
pub fn str_chars(s: &str) -> (r: Vec<char>)
    ensures
        r@ == s@,
{
    let n = s.unicode_len();
    let mut r: Vec<char> = Vec::new();
    let mut i: usize = 0;
    while i < n
        invariant
            n == s@.len(),
            i <= n,
            r@ == s@.take(i as int),
        decreases n - i,
    {
        r.push(s.get_char(i));
        i += 1;
        proof {
            assert(r@ =~= s@.take(i as int));
        }
    }
    proof {
        assert(r@ =~= s@);
    }
    r
}

/// The characters of a string slice, case-folded.
pub fn str_chars_lower(s: &str) -> (r: Vec<char>)
    ensures
        r@ == spec_lower(s@),
{
    let n = s.unicode_len();
    let mut r: Vec<char> = Vec::new();
    let mut i: usize = 0;
    while i < n
        invariant
            n == s@.len(),
            i <= n,
            r@ == spec_lower(s@).take(i as int),
        decreases n - i,
    {
        r.push(lower_char(s.get_char(i)));
        i += 1;
        proof {
            assert(r@ =~= spec_lower(s@).take(i as int));
        }
    }
    proof {
        assert(r@ =~= spec_lower(s@));
    }
    r
}

/// Case-fold a vector of characters.
pub fn chars_lower(v: &Vec<char>) -> (r: Vec<char>)
    ensures
        r@ == spec_lower(v@),
{
    let mut r: Vec<char> = Vec::new();
    let mut i: usize = 0;
    while i < v.len()
        invariant
            i <= v@.len(),
            r@ == spec_lower(v@).take(i as int),
        decreases v@.len() - i,
    {
        r.push(lower_char(v[i]));
        i += 1;
        proof {
            assert(r@ =~= spec_lower(v@).take(i as int));
        }
    }
    proof {
        assert(r@ =~= spec_lower(v@));
    }
    r
}

/// Relies on `String::push`: appends the given character to the string.
#[verifier::external_body]
pub fn push_char(s: &mut String, c: char)
    ensures
        final(s)@ == old(s)@.push(c),
{
    s.push(c);
}

/// Build a `String` out of a character vector.
pub fn chars_to_string(v: &Vec<char>) -> (r: String)
    ensures
        r@ == v@,
{
    let mut r = String::new();
    let mut i: usize = 0;
    while i < v.len()
        invariant
            i <= v@.len(),
            r@ == v@.take(i as int),
        decreases v@.len() - i,
    {
        push_char(&mut r, v[i]);
        i += 1;
        proof {
            assert(r@ =~= v@.take(i as int));
        }
    }
    proof {
        assert(r@ =~= v@);
    }
    r
}

/// `needle` occurs in `hay` starting at position `i`.
pub open spec fn spec_match_at(hay: Seq<char>, needle: Seq<char>, i: int) -> bool {
    0 <= i && i + needle.len() <= hay.len() && hay.subrange(i, i + needle.len()) == needle
}

/// Substring containment (an empty needle is contained everywhere).
pub open spec fn spec_contains(hay: Seq<char>, needle: Seq<char>) -> bool {
    exists|i: int| spec_match_at(hay, needle, i)
}

/// Whether `needle` occurs at position `i` of `hay`.
pub fn match_at(hay: &Vec<char>, needle: &Vec<char>, i: usize) -> (r: bool)
    requires
        i + needle@.len() <= hay@.len(),
    ensures
        r == spec_match_at(hay@, needle@, i as int),
{
    let hn = hay.len();
    let nn = needle.len();
    let mut j: usize = 0;
    while j < nn
        invariant
            hn == hay@.len(),
            nn == needle@.len(),
            i + needle@.len() <= hay@.len(),
            j <= needle@.len(),
            forall|k: int| 0 <= k < j ==> hay@[i + k] == needle@[k],
        decreases needle@.len() - j,
    {
        if hay[i + j] != needle[j] {
            proof {
                assert(hay@.subrange(i as int, i + needle@.len())[j as int] != needle@[j as int]);
            }
            return false;
        }
        j += 1;
    }
    proof {
        assert(hay@.subrange(i as int, i + needle@.len()) =~= needle@);
    }
    true
}

/// First occurrence of `needle` in `hay` at or after `from`, if any.
pub fn find_from(hay: &Vec<char>, needle: &Vec<char>, from: usize) -> (r: Option<usize>)
    ensures
        match r {
            Some(i) => from <= i && spec_match_at(hay@, needle@, i as int) && forall|j: int|
                from <= j < i ==> !spec_match_at(hay@, needle@, j),
            None => forall|j: int| from <= j ==> !spec_match_at(hay@, needle@, j),
        },
{
    if needle.len() > hay.len() {
        return None;
    }
    let last = hay.len() - needle.len();
    if from > last {
        return None;
    }
    let mut i: usize = from;
    loop
        invariant
            from <= i <= last,
            last == hay@.len() - needle@.len(),
            forall|j: int| from <= j < i ==> !spec_match_at(hay@, needle@, j),
        decreases last - i,
    {
        if match_at(hay, needle, i) {
            return Some(i);
        }
        proof {
            assert forall|j: int| i + needle@.len() > hay@.len() implies !spec_match_at(
                hay@,
                needle@,
                j,
            ) || j < i by {}
        }
        if i == last {
            proof {
                assert forall|j: int| from <= j implies !spec_match_at(hay@, needle@, j) by {
                    if j > last {
                        assert(j + needle@.len() > hay@.len());
                    }
                }
            }
            return None;
        }
        i += 1;
    }
}

/// Substring containment test.
pub fn contains_sub(hay: &Vec<char>, needle: &Vec<char>) -> (r: bool)
    ensures
        r == spec_contains(hay@, needle@),
{
    match find_from(hay, needle, 0) {
        Some(_) => true,
        None => false,
    }
}

/// Prefix test.
pub open spec fn spec_starts_with(s: Seq<char>, prefix: Seq<char>) -> bool {
    prefix.len() <= s.len() && s.subrange(0, prefix.len() as int) == prefix
}

pub fn starts_with(s: &Vec<char>, prefix: &Vec<char>) -> (r: bool)
    ensures
        r == spec_starts_with(s@, prefix@),
{
    if prefix.len() > s.len() {
        return false;
    }
    match_at(s, prefix, 0)
}

/// The whitespace characters recognized by the tokenizer.
pub open spec fn spec_is_ws(c: char) -> bool {
    c == ' ' || c == '\t' || c == '\n' || c == '\r' || c == '\u{b}' || c == '\u{c}'
}

pub fn is_ws(c: char) -> (r: bool)
    ensures
        r == spec_is_ws(c),
{
    c == ' ' || c == '\t' || c == '\n' || c == '\r' || c == '\u{b}' || c == '\u{c}'
}

/// Length of the leading run of non-whitespace characters.
pub open spec fn spec_run_len(s: Seq<char>) -> nat
    decreases s.len(),
{
    if s.len() == 0 || spec_is_ws(s[0]) {
        0
    } else {
        1 + spec_run_len(s.skip(1))
    }
}

/// Whitespace tokenization: maximal runs of non-whitespace characters.
pub open spec fn spec_tokens(s: Seq<char>) -> Seq<Seq<char>>
    decreases s.len(),
    via spec_tokens_decreases
{
    if s.len() == 0 {
        Seq::empty()
    } else if spec_is_ws(s[0]) {
        spec_tokens(s.skip(1))
    } else {
        seq![s.take(spec_run_len(s) as int)] + spec_tokens(s.skip(spec_run_len(s) as int))
    }
}

#[via_fn]
proof fn spec_tokens_decreases(s: Seq<char>) {
    lemma_run_len_bound(s);
}

proof fn lemma_run_len_bound(s: Seq<char>)
    ensures
        spec_run_len(s) <= s.len(),
        forall|k: int| 0 <= k < spec_run_len(s) ==> !spec_is_ws(s[k]),
        spec_run_len(s) < s.len() ==> spec_is_ws(s[spec_run_len(s) as int]),
    decreases s.len(),
{
    if s.len() == 0 || spec_is_ws(s[0]) {
    } else {
        lemma_run_len_bound(s.skip(1));
        assert forall|k: int| 0 <= k < spec_run_len(s) implies !spec_is_ws(s[k]) by {
            if k > 0 {
                assert(!spec_is_ws(s.skip(1)[k - 1]));
            }
        }
    }
}

proof fn lemma_run_len_exact(s: Seq<char>, n: int)
    requires
        0 <= n <= s.len(),
        forall|k: int| 0 <= k < n ==> !spec_is_ws(s[k]),
        n < s.len() ==> spec_is_ws(s[n]),
    ensures
        spec_run_len(s) == n,
    decreases s.len(),
{
    if s.len() == 0 {
    } else if n == 0 {
    } else {
        assert(!spec_is_ws(s[0]));
        assert forall|k: int| 0 <= k < n - 1 implies !spec_is_ws(s.skip(1)[k]) by {
            assert(s.skip(1)[k] == s[k + 1]);
        }
        assert(n - 1 < s.skip(1).len() ==> spec_is_ws(s.skip(1)[n - 1]));
        lemma_run_len_exact(s.skip(1), n - 1);
    }
}

proof fn lemma_tokens_skip_ws(s: Seq<char>, i: int)
    requires
        0 <= i <= s.len(),
        forall|k: int| 0 <= k < i ==> spec_is_ws(s[k]),
    ensures
        spec_tokens(s) == spec_tokens(s.skip(i)),
    decreases i,
{
    if i > 0 {
        assert(spec_is_ws(s[0]));
        assert(spec_tokens(s) == spec_tokens(s.skip(1)));
        assert forall|k: int| 0 <= k < i - 1 implies spec_is_ws(s.skip(1)[k]) by {
            assert(s.skip(1)[k] == s[k + 1]);
        }
        lemma_tokens_skip_ws(s.skip(1), i - 1);
        assert(s.skip(1).skip(i - 1) =~= s.skip(i));
    } else {
        assert(s.skip(0) =~= s);
    }
}

/// Tokenize a character sequence into its whitespace-separated words.
pub fn tokenize(v: &Vec<char>) -> (r: Vec<Vec<char>>)
    ensures
        r.deep_view() == spec_tokens(v@),
{
    let mut r: Vec<Vec<char>> = Vec::new();
    let mut i: usize = 0;
    proof {
        assert(v@.skip(0) =~= v@);
        assert(r.deep_view() =~= Seq::<Seq<char>>::empty());
        assert(r.deep_view() + spec_tokens(v@) =~= spec_tokens(v@));
    }
    while i < v.len()
        invariant
            i <= v@.len(),
            r.deep_view() + spec_tokens(v@.skip(i as int)) == spec_tokens(v@),
        decreases v@.len() - i,
    {
        if is_ws(v[i]) {
            proof {
                assert(v@.skip(i as int).skip(1) =~= v@.skip(i + 1));
            }
            i += 1;
        } else {
            let ghost rest = v@.skip(i as int);
            let start = i;
            let mut j: usize = i;
            while j < v.len() && !is_ws(v[j])
                invariant
                    start <= j <= v@.len(),
                    forall|k: int| start <= k < j ==> !spec_is_ws(v@[k]),
                decreases v@.len() - j,
            {
                j += 1;
            }
            proof {
                assert forall|k: int| 0 <= k < j - start implies !spec_is_ws(rest[k]) by {
                    assert(rest[k] == v@[i + k]);
                }
                assert(j - start < rest.len() ==> spec_is_ws(rest[j - start]));
                lemma_run_len_exact(rest, j - start);
            }
            let mut tok: Vec<char> = Vec::new();
            let mut k: usize = start;
            while k < j
                invariant
                    start <= k <= j <= v@.len(),
                    tok@ == v@.subrange(start as int, k as int),
                decreases j - k,
            {
                tok.push(v[k]);
                k += 1;
                proof {
                    assert(tok@ =~= v@.subrange(start as int, k as int));
                }
            }
            proof {
                assert(tok@ =~= rest.take(spec_run_len(rest) as int));
                assert(rest.skip(spec_run_len(rest) as int) =~= v@.skip(j as int));
            }
            let ghost old_dv = r.deep_view();
            proof {
                assert(tok.deep_view() =~= tok@);
            }
            r.push(tok);
            proof {
                assert(r.deep_view() =~= old_dv.push(tok@));
                assert(spec_tokens(rest) == seq![tok@] + spec_tokens(v@.skip(j as int)));
                assert(r.deep_view() + spec_tokens(v@.skip(j as int)) =~= old_dv + spec_tokens(
                    rest,
                ));
            }
            i = j;
        }
    }
    proof {
        assert(r.deep_view() + spec_tokens(v@.skip(v@.len() as int)) =~= r.deep_view());
    }
    r
}


/// Strict lexicographic order on character sequences (by code point).
pub open spec fn spec_lex_lt(a: Seq<char>, b: Seq<char>) -> bool
    decreases a.len(),
{
    if b.len() == 0 {
        false
    } else if a.len() == 0 {
        true
    } else if a[0] != b[0] {
        a[0] < b[0]
    } else {
        spec_lex_lt(a.skip(1), b.skip(1))
    }
}

/// At most one of `a < b`, `a == b`, `b < a` holds, and at least one does.
pub proof fn lemma_lex_trichotomy(a: Seq<char>, b: Seq<char>)
    ensures
        spec_lex_lt(a, b) ==> !spec_lex_lt(b, a) && a != b,
        spec_lex_lt(b, a) ==> !spec_lex_lt(a, b) && a != b,
        !spec_lex_lt(a, b) && !spec_lex_lt(b, a) ==> a == b,
    decreases a.len(),
{
    if a.len() > 0 && b.len() > 0 && a[0] == b[0] {
        lemma_lex_trichotomy(a.skip(1), b.skip(1));
        if a.skip(1) == b.skip(1) {
            assert(a =~= b) by {
                assert(forall|i: int|
                    1 <= i < a.len() ==> a[i] == a.skip(1)[i - 1] && b[i] == b.skip(1)[i - 1]);
            }
        }
        if a == b {
            assert(a.skip(1) =~= b.skip(1));
        }
    } else {
        if a.len() == 0 && b.len() == 0 {
            assert(a =~= b);
        }
    }
}

pub proof fn lemma_lex_trans(a: Seq<char>, b: Seq<char>, c: Seq<char>)
    requires
        spec_lex_lt(a, b),
        spec_lex_lt(b, c),
    ensures
        spec_lex_lt(a, c),
    decreases a.len(),
{
    if a.len() > 0 && b.len() > 0 && c.len() > 0 && a[0] == b[0] && b[0] == c[0] {
        lemma_lex_trans(a.skip(1), b.skip(1), c.skip(1));
    }
}

proof fn lemma_lex_skip(a: Seq<char>, b: Seq<char>, k: int)
    requires
        0 <= k <= a.len(),
        0 <= k <= b.len(),
        forall|i: int| 0 <= i < k ==> a[i] == b[i],
    ensures
        spec_lex_lt(a, b) == spec_lex_lt(a.skip(k), b.skip(k)),
    decreases k,
{
    if k > 0 {
        assert(a[0] == b[0]);
        assert(a.len() > 0 && b.len() > 0);
        assert forall|i: int| 0 <= i < k - 1 implies a.skip(1)[i] == b.skip(1)[i] by {
            assert(a.skip(1)[i] == a[i + 1] && b.skip(1)[i] == b[i + 1]);
        }
        lemma_lex_skip(a.skip(1), b.skip(1), k - 1);
        assert(a.skip(1).skip(k - 1) =~= a.skip(k));
        assert(b.skip(1).skip(k - 1) =~= b.skip(k));
    } else {
        assert(a.skip(0) =~= a);
        assert(b.skip(0) =~= b);
    }
}

/// Lexicographic comparison of two strings.
pub fn str_lt(a: &str, b: &str) -> (r: bool)
    ensures
        r == spec_lex_lt(a@, b@),
{
    let la = a.unicode_len();
    let lb = b.unicode_len();
    let min = if la < lb {
        la
    } else {
        lb
    };
    let mut i: usize = 0;
    while i < min
        invariant
            la == a@.len(),
            lb == b@.len(),
            min == if la < lb {
                la
            } else {
                lb
            },
            i <= min,
            forall|k: int| 0 <= k < i ==> a@[k] == b@[k],
        decreases min - i,
    {
        let ca = a.get_char(i);
        let cb = b.get_char(i);
        if ca != cb {
            proof {
                lemma_lex_skip(a@, b@, i as int);
            }
            return ca < cb;
        }
        i += 1;
    }
    proof {
        lemma_lex_skip(a@, b@, min as int);
    }
    la < lb
}

/// String equality by contents.
pub fn str_eq(a: &str, b: &str) -> (r: bool)
    ensures
        r == (a@ == b@),
{
    let la = a.unicode_len();
    let lb = b.unicode_len();
    if la != lb {
        return false;
    }
    let mut i: usize = 0;
    while i < la
        invariant
            la == a@.len(),
            la == b@.len(),
            i <= la,
            forall|k: int| 0 <= k < i ==> a@[k] == b@[k],
        decreases la - i,
    {
        if a.get_char(i) != b.get_char(i) {
            return false;
        }
        i += 1;
    }
    proof {
        assert(a@ =~= b@);
    }
    true
}

/// The decimal digits of a non-negative number, most significant first; the
/// number zero has no digits here.
pub open spec fn spec_digits(n: int) -> Seq<char>
    decreases n,
{
    if n <= 0 {
        Seq::empty()
    } else {
        spec_digits(n / 10).push((((n % 10) + 48) as u8) as char)
    }
}

/// The decimal rendering of an integer, as `i64::to_string` produces it.
pub open spec fn spec_int_str(n: int) -> Seq<char> {
    if n == 0 {
        seq!['0']
    } else if n > 0 {
        spec_digits(n)
    } else {
        seq!['-'] + spec_digits(-n)
    }
}

fn push_digits(n: u64, out: &mut Vec<char>)
    ensures
        final(out)@ == old(out)@ + spec_digits(n as int),
    decreases n,
{
    if n == 0 {
        proof {
            assert(out@ =~= old(out)@ + spec_digits(0));
        }
        return ;
    }
    push_digits(n / 10, out);
    let d = (n % 10) as u8;
    out.push((d + 48) as char);
    proof {
        assert(out@ =~= old(out)@ + spec_digits(n as int));
    }
}

/// The decimal rendering of an integer as a character vector.
pub fn int_chars(n: i64) -> (r: Vec<char>)
    ensures
        r@ == spec_int_str(n as int),
{
    let mut out: Vec<char> = Vec::new();
    if n == 0 {
        out.push('0');
        proof {
            assert(out@ =~= spec_int_str(0));
        }
        return out;
    }
    let m: u64 = if n >= 0 {
        n as u64
    } else {
        (-(n as i128)) as u64
    };
    if n < 0 {
        out.push('-');
    }
    push_digits(m, &mut out);
    proof {
        if n < 0 {
            assert(out@ =~= seq!['-'] + spec_digits(m as int));
        } else {
            assert(out@ =~= spec_digits(m as int));
        }
    }
    out
}

/// The decimal rendering of an integer as a `String`.
pub fn int_to_string(n: i64) -> (r: String)
    ensures
        r@ == spec_int_str(n as int),
{
    let v = int_chars(n);
    chars_to_string(&v)
}

pub open spec fn spec_is_digit(c: char) -> bool {
    '0' <= c && c <= '9'
}

/// Numeric value of a sequence of decimal digit characters.
pub open spec fn spec_digits_val(s: Seq<char>) -> int
    decreases s.len(),
{
    if s.len() == 0 {
        0
    } else {
        spec_digits_val(s.drop_last()) * 10 + (s.last() as u32 - 48)
    }
}

pub open spec fn spec_all_digits(s: Seq<char>) -> bool {
    s.len() > 0 && forall|i: int| 0 <= i < s.len() ==> spec_is_digit(s[i])
}

/// The integer denoted by a decimal string: an optional minus sign followed
/// by at least one digit.
pub open spec fn spec_parse_int(s: Seq<char>) -> Option<int> {
    if spec_all_digits(s) {
        Some(spec_digits_val(s))
    } else if s.len() > 1 && s[0] == '-' && spec_all_digits(s.skip(1)) {
        Some(-spec_digits_val(s.skip(1)))
    } else {
        None
    }
}

proof fn lemma_digits_val_nonneg(s: Seq<char>)
    requires
        forall|i: int| 0 <= i < s.len() ==> spec_is_digit(s[i]),
    ensures
        spec_digits_val(s) >= 0,
    decreases s.len(),
{
    if s.len() > 0 {
        lemma_digits_val_nonneg(s.drop_last());
    }
}

proof fn lemma_digits_val_prefix(s: Seq<char>, k: int)
    requires
        0 <= k <= s.len(),
        forall|i: int| 0 <= i < s.len() ==> spec_is_digit(s[i]),
    ensures
        spec_digits_val(s) >= spec_digits_val(s.take(k)),
    decreases s.len() - k,
{
    if k < s.len() {
        lemma_digits_val_nonneg(s.take(k));
        assert(s.take(k + 1).drop_last() =~= s.take(k));
        assert(spec_digits_val(s.take(k + 1)) == spec_digits_val(s.take(k)) * 10 + (s[k] as u32
            - 48));
        lemma_digits_val_prefix(s, k + 1);
    } else {
        assert(s.take(k) =~= s);
    }
}

/// Parse a decimal integer; `None` for malformed strings and for values
/// outside the `i64` range.
#[verifier::rlimit(50)]
#[verifier::spinoff_prover]
pub fn parse_int(v: &Vec<char>) -> (r: Option<i64>)
    ensures
        match spec_parse_int(v@) {
            Option::None => r is None,
            Option::Some(x) => if i64::MIN <= x <= i64::MAX {
                r == Option::Some(x as i64)
            } else {
                r is None
            },
        },
{
    if v.len() == 0 {
        return None;
    }
    let neg = v[0] == '-';
    let start: usize = if neg {
        1
    } else {
        0
    };
    if v.len() == start {
        return None;
    }
    let ghost digits = if neg {
        v@.skip(1)
    } else {
        v@
    };
    let mut acc: i128 = 0;
    let mut i: usize = start;
    while i < v.len()
        invariant
            start <= i <= v@.len(),
            v@.len() > 0,
            neg == (v@[0] == '-'),
            start == if neg {
                1int
            } else {
                0int
            },
            start < v@.len(),
            digits == if neg {
                v@.skip(1)
            } else {
                v@
            },
            forall|k: int| start <= k < i ==> spec_is_digit(v@[k]),
            acc == spec_digits_val(digits.take(i - start)),
            0 <= acc <= 0x8000_0000_0000_0000i128,
        decreases v@.len() - i,
    {
        let c = v[i];
        if !('0' <= c && c <= '9') {
            return None;
        }
        let d = (c as u32) - 48;
        proof {
            assert(digits.take(i + 1 - start).drop_last() =~= digits.take(i - start));
            lemma_digits_val_nonneg(digits.take(i - start));
        }
        let next: i128 = acc * 10 + (d as i128);
        if next > 0x8000_0000_0000_0000i128 {
            proof {
                if spec_all_digits(digits) {
                    lemma_digits_val_prefix(digits, i + 1 - start);
                } else {
                    if neg {
                        assert(!spec_is_digit(v@[0]));
                        assert(!spec_all_digits(v@));
                    }
                }
            }
            return None;
        }
        acc = next;
        i += 1;
    }
    proof {
        assert(digits.take(v@.len() - start) =~= digits);
        assert forall|k: int| 0 <= k < digits.len() implies spec_is_digit(digits[k]) by {
            if neg {
                assert(digits[k] == v@[k + 1]);
            } else {
                assert(digits[k] == v@[k]);
            }
        }
        if neg {
            assert(!spec_is_digit(v@[0]));
            assert(!spec_all_digits(v@));
        } else {
            assert(spec_all_digits(v@));
        }
    }
    if neg {
        let val = -acc;
        if val < -0x8000_0000_0000_0000i128 {
            return None;
        }
        Some(val as i64)
    } else {
        if acc > 0x7fff_ffff_ffff_ffffi128 {
            return None;
        }
        Some(acc as i64)
    }
}

/// Anchored glob matching: `*` matches any sequence, `?` any one character,
/// every other pattern character only itself.
pub open spec fn spec_glob(p: Seq<char>, s: Seq<char>) -> bool
    decreases p.len() + s.len(),
{
    if p.len() == 0 {
        s.len() == 0
    } else if p[0] == '*' {
        spec_glob(p.skip(1), s) || (s.len() > 0 && spec_glob(p, s.skip(1)))
    } else {
        s.len() > 0 && (p[0] == '?' || p[0] == s[0]) && spec_glob(p.skip(1), s.skip(1))
    }
}

/// Glob matching by dynamic programming over pattern and subject suffixes.
pub fn glob_match(p: &Vec<char>, s: &Vec<char>) -> (r: bool)
    ensures
        r == spec_glob(p@, s@),
{
    let m = p.len();
    let n = s.len();
    // next[j] == spec_glob(p@.skip(i + 1), s@.skip(j)); row[j] == spec_glob(p@.skip(i), s@.skip(j))
    let mut next: Vec<bool> = Vec::new();
    let mut j: usize = 0;
    while j < n
        invariant
            j <= n,
            m == p@.len(),
            n == s@.len(),
            next@.len() == j,
            forall|k: int| 0 <= k < j ==> next@[k] == spec_glob(p@.skip(m as int), s@.skip(k)),
        decreases n - j,
    {
        proof {
            assert(p@.skip(m as int) =~= Seq::<char>::empty());
            assert(s@.skip(j as int).len() == n - j);
        }
        next.push(false);
        j += 1;
    }
    proof {
        assert(p@.skip(m as int) =~= Seq::<char>::empty());
        assert(s@.skip(n as int).len() == 0);
    }
    next.push(true);
    let mut i: usize = m;
    while i > 0
        invariant
            i <= m,
            m == p@.len(),
            n == s@.len(),
            next@.len() == n + 1,
            forall|k: int| 0 <= k <= n ==> next@[k] == spec_glob(p@.skip(i as int), s@.skip(k)),
        decreases i,
    {
        let pi = p[i - 1];
        let mut row: Vec<bool> = Vec::new();
        let mut t: usize = 0;
        while t < n
            invariant
                t <= n,
                row@.len() == t,
            decreases n - t,
        {
            row.push(false);
            t += 1;
        }
        row.push(false);
        let mut j: usize = row.len();
        while j > 0
            invariant
                j <= n + 1,
                0 < i <= m,
                m == p@.len(),
                n == s@.len(),
                pi == p@[i - 1],
                next@.len() == n + 1,
                row@.len() == n + 1,
                forall|k: int| 0 <= k <= n ==> next@[k] == spec_glob(p@.skip(i as int), s@.skip(k)),
                forall|k: int|
                    j <= k <= n ==> row@[k] == spec_glob(p@.skip(i - 1), s@.skip(k)),
            decreases j,
        {
            let jj = j - 1;
            let val: bool = if pi == '*' {
                next[jj] || (jj < n && row[jj + 1])
            } else {
                jj < n && (pi == '?' || pi == s[jj]) && next[jj + 1]
            };
            proof {
                let pp = p@.skip(i - 1);
                assert(pp[0] == p@[i - 1]);
                assert(pp.skip(1) =~= p@.skip(i as int));
                let ss = s@.skip(jj as int);
                assert(ss.len() == n - jj);
                if jj < n {
                    assert(ss[0] == s@[jj as int]);
                    assert(ss.skip(1) =~= s@.skip(jj + 1));
                }
                assert(val == spec_glob(p@.skip(i - 1), s@.skip(jj as int)));
            }
            row[jj] = val;
            j = jj;
        }
        next = row;
        i -= 1;
    }
    proof {
        assert(p@.skip(0) =~= p@);
        assert(s@.skip(0) =~= s@);
    }
    next[0]
}

/// Greedy in-order word containment: each phrase word must be contained in
/// some later-or-equal field word, in phrase order.
pub open spec fn spec_words_in_order(fw: Seq<Seq<char>>, pw: Seq<Seq<char>>) -> bool
    decreases fw.len(),
{
    if pw.len() == 0 {
        true
    } else if fw.len() == 0 {
        false
    } else if spec_contains(fw[0], pw[0]) {
        spec_words_in_order(fw.skip(1), pw.skip(1))
    } else {
        spec_words_in_order(fw.skip(1), pw)
    }
}

/// Whether the phrase words occur, in order, inside the field words.
pub fn words_in_order(field_words: &Vec<Vec<char>>, phrase_words: &Vec<Vec<char>>) -> (r: bool)
    ensures
        r == spec_words_in_order(field_words.deep_view(), phrase_words.deep_view()),
{
    let ghost fw = field_words.deep_view();
    let ghost pw = phrase_words.deep_view();
    let mut fi: usize = 0;
    let mut pi: usize = 0;
    proof {
        assert(fw.skip(0) =~= fw);
        assert(pw.skip(0) =~= pw);
    }
    while fi < field_words.len() && pi < phrase_words.len()
        invariant
            fi <= fw.len(),
            pi <= pw.len(),
            fw == field_words.deep_view(),
            pw == phrase_words.deep_view(),
            fw.len() == field_words@.len(),
            pw.len() == phrase_words@.len(),
            spec_words_in_order(fw, pw) == spec_words_in_order(
                fw.skip(fi as int),
                pw.skip(pi as int),
            ),
        decreases fw.len() - fi,
    {
        proof {
            assert(fw[fi as int] == field_words@[fi as int]@);
            assert(pw[pi as int] == phrase_words@[pi as int]@);
            assert(fw.skip(fi as int)[0] == fw[fi as int]);
            assert(pw.skip(pi as int)[0] == pw[pi as int]);
            assert(fw.skip(fi as int).skip(1) =~= fw.skip(fi + 1));
            assert(pw.skip(pi as int).skip(1) =~= pw.skip(pi + 1));
        }
        if contains_sub(&field_words[fi], &phrase_words[pi]) {
            pi += 1;
        }
        fi += 1;
    }
    proof {
        if pi >= pw.len() {
            assert(pw.skip(pi as int).len() == 0);
        } else {
            assert(fw.skip(fi as int).len() == 0);
        }
    }
    pi >= phrase_words.len()
}


/// Whether a string slice and a character vector hold the same characters.
pub fn str_eq_chars(a: &str, b: &Vec<char>) -> (r: bool)
    ensures
        r == (a@ == b@),
{
    let la = a.unicode_len();
    if la != b.len() {
        return false;
    }
    let mut i: usize = 0;
    while i < la
        invariant
            la == a@.len(),
            la == b@.len(),
            i <= la,
            forall|k: int| 0 <= k < i ==> a@[k] == b@[k],
        decreases la - i,
    {
        if a.get_char(i) != b[i] {
            return false;
        }
        i += 1;
    }
    proof {
        assert(a@ =~= b@);
    }
    true
}


/// Whether two character vectors hold the same characters.
pub fn chars_eq(a: &Vec<char>, b: &Vec<char>) -> (r: bool)
    ensures
        r == (a@ == b@),
{
    if a.len() != b.len() {
        return false;
    }
    let mut i: usize = 0;
    while i < a.len()
        invariant
            a@.len() == b@.len(),
            i <= a@.len(),
            forall|k: int| 0 <= k < i ==> a@[k] == b@[k],
        decreases a@.len() - i,
    {
        if a[i] != b[i] {
            return false;
        }
        i += 1;
    }
    proof {
        assert(a@ =~= b@);
    }
    true
}

} // verus!
