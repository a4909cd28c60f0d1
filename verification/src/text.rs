//! Character-level string operations, stated over `Seq<char>`.

use vstd::prelude::*;

verus! {

broadcast use vstd::string::group_string_axioms;

/// Unicode `White_Space`, the property that `char::is_whitespace` tests.
pub open spec fn is_ws(c: char) -> bool {
    ||| ('\u{9}' <= c && c <= '\u{d}')
    ||| c == ' '
    ||| c == '\u{85}'
    ||| c == '\u{a0}'
    ||| c == '\u{1680}'
    ||| ('\u{2000}' <= c && c <= '\u{200a}')
    ||| c == '\u{2028}'
    ||| c == '\u{2029}'
    ||| c == '\u{202f}'
    ||| c == '\u{205f}'
    ||| c == '\u{3000}'
}

/// Whether `c` is white space in the sense of `char::is_whitespace`.
pub fn is_whitespace(c: char) -> (r: bool)
    ensures
        r == is_ws(c),
{
    ('\u{9}' <= c && c <= '\u{d}') || c == ' ' || c == '\u{85}' || c == '\u{a0}' || c == '\u{1680}'
        || ('\u{2000}' <= c && c <= '\u{200a}') || c == '\u{2028}' || c == '\u{2029}' || c
        == '\u{202f}' || c == '\u{205f}' || c == '\u{3000}'
}

/// The characters of `s`, in order.
pub fn chars_of(s: &str) -> (v: Vec<char>)
    ensures
        v@ == s@,
{
    let mut v: Vec<char> = Vec::new();
    for c in it: s.chars()
        invariant
            it.seq() == s@,
            v@ == s@.take(it.index() as int),
    {
        v.push(c);
        assert(v@ =~= s@.take(it.index() as int + 1));
    }
    assert(v@ =~= s@);
    v
}


/// `s` with its leading white space removed.
pub open spec fn trim_start(s: Seq<char>) -> Seq<char>
    decreases s.len(),
{
    if s.len() > 0 && is_ws(s[0]) {
        trim_start(s.drop_first())
    } else {
        s
    }
}

/// `s` with its trailing white space removed.
pub open spec fn trim_end(s: Seq<char>) -> Seq<char>
    decreases s.len(),
{
    if s.len() > 0 && is_ws(s.last()) {
        trim_end(s.drop_last())
    } else {
        s
    }
}

/// `s` without leading and trailing white space, as `str::trim` gives it.
pub open spec fn trimmed(s: Seq<char>) -> Seq<char> {
    trim_end(trim_start(s))
}

/// `s` with every trailing `c` removed, as `str::trim_end_matches(c)` gives it.
pub open spec fn trim_end_char(s: Seq<char>, c: char) -> Seq<char>
    decreases s.len(),
{
    if s.len() > 0 && s.last() == c {
        trim_end_char(s.drop_last(), c)
    } else {
        s
    }
}

/// `p` is a prefix of `s`.
pub open spec fn starts_with(s: Seq<char>, p: Seq<char>) -> bool {
    p.len() <= s.len() && s.subrange(0, p.len() as int) == p
}

/// `p` occurs in `s` starting at position `i`.
pub open spec fn occurs_at(s: Seq<char>, p: Seq<char>, i: int) -> bool {
    0 <= i && i + p.len() <= s.len() && s.subrange(i, i + p.len()) == p
}

/// `p` occurs somewhere in `s`, as `str::contains` tests.
pub open spec fn contains(s: Seq<char>, p: Seq<char>) -> bool {
    exists|i: int| occurs_at(s, p, i)
}

/// `s` without the prefix `p` when it has it, else `s` unchanged.
pub open spec fn strip_prefix_or_keep(s: Seq<char>, p: Seq<char>) -> Seq<char> {
    if starts_with(s, p) {
        s.skip(p.len() as int)
    } else {
        s
    }
}

/// Position of the first occurrence of `p` in `s` at or after `from`.
pub open spec fn find_from(s: Seq<char>, p: Seq<char>, from: int) -> Option<int>
    decreases s.len() - from,
{
    if from < 0 || from + p.len() > s.len() {
        None
    } else if occurs_at(s, p, from) {
        Some(from)
    } else if from >= s.len() {
        None
    } else {
        find_from(s, p, from + 1)
    }
}

/// Position of the first occurrence of `p` in `s`, as `str::find` gives it.
pub open spec fn find(s: Seq<char>, p: Seq<char>) -> Option<int> {
    find_from(s, p, 0)
}

/// Lower-case ASCII letter for `c` when it is an upper-case ASCII letter.
pub open spec fn ascii_lower(c: char) -> char {
    if 'A' <= c && c <= 'Z' {
        ((c as u32) + 32) as char
    } else {
        c
    }
}

/// Every character of `s` is ASCII.
pub open spec fn all_ascii(s: Seq<char>) -> bool {
    forall|i: int| 0 <= i < s.len() ==> (s[i] as u32) < 128
}

/// What `str::to_lowercase` returns for a string with the characters `s`: the
/// Unicode default lower-case mapping, with the context rule for a capital
/// sigma that ends a word.
pub uninterp spec fn lowercase(s: Seq<char>) -> Seq<char>;

/// `str::to_lowercase`. Claims: the result is `lowercase` of the input, and
/// on ASCII input it lowers exactly the letters `A`..`Z` and keeps the length
/// (the Unicode lower-case mapping of an ASCII character is its ASCII lower case).
#[verifier::external_body]
pub(crate) fn to_lowercase(s: &str) -> (r: String)
    ensures
        r@ == lowercase(s@),
        all_ascii(s@) ==> r@ == s@.map_values(|c: char| ascii_lower(c)),
{
    s.to_lowercase()
}

/// A `String` holding the characters of `v` (`String: FromIterator<char>`).
#[verifier::external_body]
pub(crate) fn string_of(v: &[char]) -> (r: String)
    ensures
        r@ == v@,
{
    String::from_iter(v.iter())
}

/// A fresh vector holding `v[from..to]`.
pub fn copy_range(v: &[char], from: usize, to: usize) -> (r: Vec<char>)
    requires
        from <= to <= v@.len(),
    ensures
        r@ == v@.subrange(from as int, to as int),
{
    let mut r: Vec<char> = Vec::new();
    let mut i: usize = from;
    while i < to
        invariant
            from <= i <= to <= v@.len(),
            r@ == v@.subrange(from as int, i as int),
        decreases to - i,
    {
        r.push(v[i]);
        i += 1;
        assert(r@ =~= v@.subrange(from as int, i as int));
    }
    r
}

/// Whether `v` starts with `p` at position `at`.
pub fn matches_at(v: &[char], p: &[char], at: usize) -> (r: bool)
    requires
        at <= v@.len(),
    ensures
        r == occurs_at(v@, p@, at as int),
{
    if p.len() > v.len() - at {
        return false;
    }
    let mut i: usize = 0;
    while i < p.len()
        invariant
            at + p@.len() <= v@.len(),
            v@.len() == v.len(),
            i <= p@.len(),
            forall|j: int| 0 <= j < i ==> v@[at + j] == p@[j],
        decreases p@.len() - i,
    {
        if v[at + i] != p[i] {
            assert(v@.subrange(at as int, at + p@.len())[i as int] != p@[i as int]);
            return false;
        }
        i += 1;
    }
    assert(v@.subrange(at as int, at + p@.len()) =~= p@);
    true
}

/// Whether `v` starts with `p` (`str::starts_with`).
pub fn has_prefix(v: &[char], p: &[char]) -> (r: bool)
    ensures
        r == starts_with(v@, p@),
{
    let r = matches_at(v, p, 0);
    proof {
        if starts_with(v@, p@) {
            assert(v@.subrange(0, p@.len() as int) == p@);
        }
    }
    r
}

/// Position of the first occurrence of `p` in `v` at or after `from`.
pub fn find_at_or_after(v: &[char], p: &[char], from: usize) -> (r: Option<usize>)
    requires
        from <= v@.len(),
    ensures
        match r {
            Some(i) => find_from(v@, p@, from as int) == Some(i as int),
            None => find_from(v@, p@, from as int) is None,
        },
    decreases v@.len() - from,
{
    if p.len() > v.len() - from {
        return None;
    }
    if matches_at(v, p, from) {
        return Some(from);
    }
    if from == v.len() {
        return None;
    }
    find_at_or_after(v, p, from + 1)
}

/// Whether `p` occurs in `v` (`str::contains`).
pub fn has_substring(v: &[char], p: &[char]) -> (r: bool)
    ensures
        r == contains(v@, p@),
{
    let found = find_at_or_after(v, p, 0);
    proof {
        lemma_find_from_is_first(v@, p@, 0);
    }
    found.is_some()
}

/// `find_from` returns the first occurrence at or after `from`, and finds one
/// whenever there is one.
pub proof fn lemma_find_from_is_first(s: Seq<char>, p: Seq<char>, from: int)
    requires
        0 <= from,
    ensures
        find_from(s, p, from) matches Some(i) ==> from <= i && occurs_at(s, p, i) && forall|
            j: int,
        | from <= j < i ==> !occurs_at(s, p, j),
        find_from(s, p, from) is None ==> forall|j: int| from <= j ==> !occurs_at(s, p, j),
    decreases s.len() - from,
{
    if from + p.len() > s.len() {
    } else if occurs_at(s, p, from) {
    } else if from >= s.len() {
    } else {
        lemma_find_from_is_first(s, p, from + 1);
    }
}

/// The position just past the leading white space of `v[from..]`.
fn skip_ws_forward(v: &[char], from: usize) -> (r: usize)
    requires
        from <= v@.len(),
    ensures
        from <= r <= v@.len(),
        trim_start(v@.skip(from as int)) == v@.skip(r as int),
    decreases v@.len() - from,
{
    if from < v.len() && is_whitespace(v[from]) {
        assert(v@.skip(from as int).drop_first() =~= v@.skip(from + 1));
        skip_ws_forward(v, from + 1)
    } else {
        proof {
            if from < v@.len() {
                assert(v@.skip(from as int)[0] == v@[from as int]);
            }
        }
        from
    }
}

/// The end of `v[lo..hi]` once its trailing white space is removed.
fn skip_ws_backward(v: &[char], lo: usize, hi: usize) -> (r: usize)
    requires
        lo <= hi <= v@.len(),
    ensures
        lo <= r <= hi,
        trim_end(v@.subrange(lo as int, hi as int)) == v@.subrange(lo as int, r as int),
    decreases hi - lo,
{
    if lo < hi && is_whitespace(v[hi - 1]) {
        assert(v@.subrange(lo as int, hi as int).drop_last() =~= v@.subrange(lo as int, hi - 1));
        skip_ws_backward(v, lo, hi - 1)
    } else {
        hi
    }
}

/// `v` without leading and trailing white space (`str::trim`).
pub fn trim(v: &[char]) -> (r: Vec<char>)
    ensures
        r@ == trimmed(v@),
{
    let start = skip_ws_forward(v, 0);
    let end: usize = skip_ws_backward(v, start, v.len());
    assert(v@.skip(0) =~= v@);
    assert(v@.skip(start as int) =~= v@.subrange(start as int, v@.len() as int));
    copy_range(v, start, end)
}

/// `v` with every trailing `c` removed (`str::trim_end_matches(c)`).
pub fn trim_end_matching(v: &[char], c: char) -> (r: Vec<char>)
    ensures
        r@ == trim_end_char(v@, c),
{
    let mut end: usize = v.len();
    assert(v@.subrange(0, v@.len() as int) =~= v@);
    while end > 0 && v[end - 1] == c
        invariant
            end <= v@.len(),
            trim_end_char(v@, c) == trim_end_char(v@.subrange(0, end as int), c),
        decreases end,
    {
        assert(v@.subrange(0, end as int).drop_last() =~= v@.subrange(0, end - 1));
        end -= 1;
    }
    assert(v@.subrange(0, v@.len() as int) =~= v@);
    copy_range(v, 0, end)
}

/// Length of the leading run of `s` that holds no `c`.
pub open spec fn len_before(s: Seq<char>, c: char) -> nat
    decreases s.len(),
{
    if s.len() == 0 || s[0] == c {
        0
    } else {
        1 + len_before(s.drop_first(), c)
    }
}

/// The text of `s` before its first `c` (all of `s` when it holds none), as
/// the first item of `str::split(c)` gives it.
pub open spec fn before_char(s: Seq<char>, c: char) -> Seq<char> {
    s.take(len_before(s, c) as int)
}

/// `s[from..]` with every later occurrence of `p` replaced by `w`, matches
/// taken left to right without overlap.
pub open spec fn replaced_from(s: Seq<char>, p: Seq<char>, w: Seq<char>, from: int) -> Seq<char>
    decreases s.len() - from,
{
    if p.len() == 0 || from < 0 || from > s.len() {
        s.skip(from)
    } else {
        match find_from(s, p, from) {
            Some(i) => {
                proof {
                    lemma_find_from_is_first(s, p, from);
                }
                s.subrange(from, i) + w + replaced_from(s, p, w, i + p.len())
            },
            None => s.skip(from),
        }
    }
}

/// `s` with every occurrence of the non-empty `p` replaced by `w` (`str::replace`).
pub open spec fn replaced(s: Seq<char>, p: Seq<char>, w: Seq<char>) -> Seq<char> {
    replaced_from(s, p, w, 0)
}

/// `v` with every occurrence of `p` replaced by `w` (`str::replace`).
pub fn replace_all(v: &[char], p: &[char], w: &[char]) -> (r: Vec<char>)
    requires
        p@.len() > 0,
    ensures
        r@ == replaced(v@, p@, w@),
{
    let mut out: Vec<char> = Vec::new();
    let mut pos: usize = 0;
    loop
        invariant
            pos <= v@.len(),
            p@.len() > 0,
            out@ + replaced_from(v@, p@, w@, pos as int) == replaced(v@, p@, w@),
        decreases v@.len() - pos,
    {
        let found = find_at_or_after(v, p, pos);
        proof {
            lemma_find_from_is_first(v@, p@, pos as int);
        }
        match found {
            Some(i) => {
                let ghost old_out = out@;
                let mut j: usize = pos;
                while j < i
                    invariant
                        pos <= j <= i,
                        i + p@.len() <= v@.len(),
                        out@ == old_out + v@.subrange(pos as int, j as int),
                    decreases i - j,
                {
                    out.push(v[j]);
                    j += 1;
                    assert(out@ =~= old_out + v@.subrange(pos as int, j as int));
                }
                let mut k: usize = 0;
                while k < w.len()
                    invariant
                        k <= w@.len(),
                        pos <= i,
                        i + p@.len() <= v@.len(),
                        out@ == old_out + v@.subrange(pos as int, i as int) + w@.subrange(0, k as int),
                    decreases w@.len() - k,
                {
                    out.push(w[k]);
                    k += 1;
                    assert(out@ =~= old_out + v@.subrange(pos as int, i as int) + w@.subrange(0, k as int));
                }
                assert(w@.subrange(0, w@.len() as int) =~= w@);
                assert(out@ + replaced_from(v@, p@, w@, i + p@.len()) =~= old_out
                    + replaced_from(v@, p@, w@, pos as int));
                assert(i + p.len() <= v.len());
                pos = i + p.len();
            },
            None => {
                let mut j: usize = pos;
                let ghost old_out = out@;
                while j < v.len()
                    invariant
                        pos <= j <= v@.len(),
                        out@ == old_out + v@.subrange(pos as int, j as int),
                    decreases v@.len() - j,
                {
                    out.push(v[j]);
                    j += 1;
                    assert(out@ =~= old_out + v@.subrange(pos as int, j as int));
                }
                assert(v@.subrange(pos as int, v@.len() as int) =~= v@.skip(pos as int));
                return out;
            },
        }
    }
}

/// The text of `v` before its first `c` (`str::split(c).next()`).
pub fn prefix_before(v: &[char], c: char) -> (r: Vec<char>)
    ensures
        r@ == before_char(v@, c),
{
    let mut end: usize = 0;
    assert(v@.skip(0) =~= v@);
    while end < v.len() && v[end] != c
        invariant
            end <= v@.len(),
            len_before(v@, c) == end + len_before(v@.skip(end as int), c),
        decreases v@.len() - end,
    {
        assert(v@.skip(end as int).drop_first() =~= v@.skip(end + 1));
        end += 1;
    }
    proof {
        if end < v@.len() {
            assert(v@.skip(end as int)[0] == v@[end as int]);
        }
        assert(v@.skip(0) =~= v@);
    }
    copy_range(v, 0, end)
}

/// Whether two character sequences are equal.
pub fn same_chars(a: &[char], b: &[char]) -> (r: bool)
    ensures
        r == (a@ == b@),
{
    if a.len() != b.len() {
        return false;
    }
    let r = matches_at(a, b, 0);
    proof {
        assert(a@.subrange(0, b@.len() as int) =~= a@);
    }
    r
}

/// What `char::is_alphanumeric` returns for `c`: whether `c` has the Unicode
/// `Alphabetic` or `Numeric` property.
pub uninterp spec fn alphanumeric(c: char) -> bool;

/// ASCII letters and digits.
pub open spec fn ascii_alphanumeric(c: char) -> bool {
    ('a' <= c && c <= 'z') || ('A' <= c && c <= 'Z') || ('0' <= c && c <= '9')
}

/// `char::is_alphanumeric`. Claims: the result is `alphanumeric(c)`, and for
/// an ASCII character it is true exactly for letters and digits.
#[verifier::external_body]
pub(crate) fn is_alphanumeric(c: char) -> (r: bool)
    ensures
        r == alphanumeric(c),
        (c as u32) < 128 ==> r == ascii_alphanumeric(c),
{
    c.is_alphanumeric()
}

/// What `char::is_lowercase` returns for `c`: whether `c` has the Unicode
/// `Lowercase` property.
pub uninterp spec fn lower_case(c: char) -> bool;

/// What `char::is_uppercase` returns for `c`: whether `c` has the Unicode
/// `Uppercase` property.
pub uninterp spec fn upper_case(c: char) -> bool;

/// `char::is_lowercase`. Claims: the result is `lower_case(c)`, and for an
/// ASCII character it is true exactly for `a`..`z`.
#[verifier::external_body]
pub(crate) fn is_lowercase(c: char) -> (r: bool)
    ensures
        r == lower_case(c),
        (c as u32) < 128 ==> r == ('a' <= c && c <= 'z'),
{
    c.is_lowercase()
}

/// `char::is_uppercase`. Claims: the result is `upper_case(c)`, and for an
/// ASCII character it is true exactly for `A`..`Z`.
#[verifier::external_body]
pub(crate) fn is_uppercase(c: char) -> (r: bool)
    ensures
        r == upper_case(c),
        (c as u32) < 128 ==> r == ('A' <= c && c <= 'Z'),
{
    c.is_uppercase()
}

/// `s[i..]` starts with `q` exactly when `q` occurs in `s` at `i`.
pub proof fn lemma_starts_with_skip(s: Seq<char>, q: Seq<char>, i: int)
    requires
        0 <= i <= s.len(),
    ensures
        starts_with(s.skip(i), q) == occurs_at(s, q, i),
{
    if i + q.len() <= s.len() {
        assert(s.skip(i).subrange(0, q.len() as int) =~= s.subrange(i, i + q.len()));
    }
}

/// `v` without the prefix `p` when it starts with it, else `v` unchanged.
pub fn strip_prefix_keep(v: &[char], p: &[char]) -> (r: Vec<char>)
    ensures
        r@ == strip_prefix_or_keep(v@, p@),
{
    if has_prefix(v, p) {
        let r = copy_range(v, p.len(), v.len());
        assert(r@ =~= v@.skip(p@.len() as int));
        r
    } else {
        let r = copy_range(v, 0, v.len());
        assert(r@ =~= v@);
        r
    }
}

/// The value of `s` read as ASCII decimal digits, most significant first;
/// `None` when `s` is empty or holds anything but digits.
pub open spec fn digits_value(s: Seq<char>) -> Option<nat>
    decreases s.len(),
{
    if s.len() == 0 || !('0' <= s.last() && s.last() <= '9') {
        None
    } else if s.len() == 1 {
        Some((s.last() as int - 48) as nat)
    } else {
        match digits_value(s.drop_last()) {
            Some(v) => Some((v * 10 + (s.last() as int - 48)) as nat),
            None => None,
        }
    }
}

/// What `str::parse::<i64>` gives for the text `s`: an optional `+` or `-`
/// followed by decimal digits, when the value fits in an `i64`.
pub open spec fn parsed_i64(s: Seq<char>) -> Option<i64> {
    let negative = s.len() > 0 && s[0] == '-';
    let body = if s.len() > 0 && (s[0] == '-' || s[0] == '+') {
        s.skip(1)
    } else {
        s
    };
    match digits_value(body) {
        Some(v) => {
            let x: int = if negative {
                -v
            } else {
                v as int
            };
            if i64::MIN <= x && x <= i64::MAX {
                Some(x as i64)
            } else {
                None
            }
        },
        None => None,
    }
}

/// `str::parse::<i64>`, with the parse error turned into `None`. Claims that
/// the result is `parsed_i64` of the text, as `i64`'s `FromStr` documents.
#[verifier::external_body]
pub(crate) fn parse_i64(s: &str) -> (r: Option<i64>)
    ensures
        r == parsed_i64(s@),
{
    s.parse::<i64>().ok()
}

/// The decimal digits of `n`, most significant first, without leading zeros.
pub open spec fn digit_text(n: nat) -> Seq<char>
    decreases n,
{
    if n < 10 {
        seq![(n + 48) as char]
    } else {
        digit_text(n / 10).push(((n % 10) + 48) as char)
    }
}

/// The decimal text of `n`: a `-` for a negative number, then its digits.
pub open spec fn decimal_text(n: int) -> Seq<char> {
    if n < 0 {
        seq!['-'] + digit_text((-n) as nat)
    } else {
        digit_text(n as nat)
    }
}

/// `i64::to_string`. Claims that the text is `decimal_text` of the number,
/// which is how `Display` writes integers.
#[verifier::external_body]
pub(crate) fn i64_text(n: i64) -> (r: String)
    ensures
        r@ == decimal_text(n as int),
{
    n.to_string()
}

/// The digits of `n` read back give `n`; the text starts with a digit.
pub proof fn lemma_digit_text_value(n: nat)
    ensures
        digits_value(digit_text(n)) == Some(n),
        digit_text(n).len() > 0,
        '0' <= digit_text(n)[0] && digit_text(n)[0] <= '9',
    decreases n,
{
    if n >= 10 {
        lemma_digit_text_value(n / 10);
        let t = digit_text(n);
        assert(t.drop_last() =~= digit_text(n / 10));
        assert(t[0] == digit_text(n / 10)[0]);
    }
}

/// Decimal text read back as an `i64` gives the number it was written from.
pub proof fn lemma_decimal_text_parses(n: i64)
    ensures
        parsed_i64(decimal_text(n as int)) == Some(n),
{
    if n < 0 {
        lemma_digit_text_value((-n) as nat);
        let s = decimal_text(n as int);
        assert(s.skip(1) =~= digit_text((-n) as nat));
    } else {
        lemma_digit_text_value(n as nat);
    }
}

/// `a` and `b` are equal when ASCII letters are compared without case
/// (`str::eq_ignore_ascii_case`).
pub open spec fn eq_ignore_ascii_case_spec(a: Seq<char>, b: Seq<char>) -> bool {
    a.len() == b.len() && forall|i: int| 0 <= i < a.len() ==> ascii_lower(#[trigger] a[i]) == ascii_lower(b[i])
}

/// ASCII lower case of `c`.
pub fn to_ascii_lower(c: char) -> (r: char)
    ensures
        r == ascii_lower(c),
{
    if 'A' <= c && c <= 'Z' {
        ((c as u8) + 32) as char
    } else {
        c
    }
}

/// Whether `a` and `b` are equal ignoring ASCII case (`str::eq_ignore_ascii_case`).
pub fn eq_ignore_ascii_case(a: &[char], b: &[char]) -> (r: bool)
    ensures
        r == eq_ignore_ascii_case_spec(a@, b@),
{
    if a.len() != b.len() {
        return false;
    }
    let mut i: usize = 0;
    while i < a.len()
        invariant
            i <= a@.len(),
            a@.len() == b@.len(),
            forall|j: int| 0 <= j < i ==> ascii_lower(#[trigger] a@[j]) == ascii_lower(b@[j]),
        decreases a@.len() - i,
    {
        if to_ascii_lower(a[i]) != to_ascii_lower(b[i]) {
            return false;
        }
        i += 1;
    }
    true
}

} // verus!
