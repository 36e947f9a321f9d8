//! Character-level text utilities shared by the extractors: whitespace
//! classification, soft-hyphen removal, whitespace collapsing, trimming and
//! URL decoding.
use vstd::prelude::*;
use vstd::string::StrSliceExecFns;

verus! {

/// The Unicode `White_Space` set, the set `char::is_whitespace` recognises.
pub open spec fn is_space_char(c: char) -> bool {
    let u = c as u32;
    (0x09 <= u && u <= 0x0D) || u == 0x20 || u == 0x85 || u == 0xA0 || u == 0x1680 || (0x2000
        <= u && u <= 0x200A) || u == 0x2028 || u == 0x2029 || u == 0x202F || u == 0x205F || u
        == 0x3000
}

/// Whether `c` is whitespace, in the sense of Unicode `White_Space`.
pub fn is_space(c: char) -> (r: bool)
    ensures
        r == is_space_char(c),
{
    let u = c as u32;
    (0x09 <= u && u <= 0x0D) || u == 0x20 || u == 0x85 || u == 0xA0 || u == 0x1680 || (0x2000 <= u
        && u <= 0x200A) || u == 0x2028 || u == 0x2029 || u == 0x202F || u == 0x205F || u == 0x3000
}

/// Relies on `str`'s `PartialEq`: two string slices are equal exactly when
/// their characters are.
pub assume_specification[ <str as PartialEq>::eq ](a: &str, b: &str) -> (r: bool)
    ensures
        r == (a@ == b@),
;

/// The display length of a text: the number of addressable text units
/// (characters), never the number of raw bytes.
pub fn display_len(s: &str) -> (n: usize)
    ensures
        n == s@.len(),
{
    s.unicode_len()
}

/// Relies on `String::push`: appends one character at the end.
#[verifier::external_body]
pub fn push_char(s: &mut String, c: char)
    ensures
        final(s)@ == old(s)@.push(c),
{
    s.push(c)
}

/// An ASCII capital lowered; anything else unchanged.
pub open spec fn ascii_lower_char(c: char) -> char {
    if 'A' <= c && c <= 'Z' {
        (((c as u32) + 32) as u8) as char
    } else {
        c
    }
}

pub open spec fn ascii_lower_chars(s: Seq<char>) -> Seq<char>
    decreases s.len(),
{
    if s.len() == 0 {
        Seq::empty()
    } else {
        ascii_lower_chars(s.drop_last()).push(ascii_lower_char(s.last()))
    }
}

/// Lowering is idempotent: a second pass changes nothing, so a lookup keyed
/// by lowered extensions cannot depend on the case of its input.
pub proof fn lemma_ascii_lower_idempotent(s: Seq<char>)
    ensures
        ascii_lower_chars(ascii_lower_chars(s)) == ascii_lower_chars(s),
    decreases s.len(),
{
    if s.len() > 0 {
        lemma_ascii_lower_idempotent(s.drop_last());
        let l = ascii_lower_chars(s);
        assert(l.drop_last() =~= ascii_lower_chars(s.drop_last()));
    }
}

/// Lowercases the ASCII letters of a string.
pub fn to_ascii_lowercase(s: &str) -> (r: String)
    ensures
        r@ == ascii_lower_chars(s@),
{
    let n: usize = s.unicode_len();
    let mut out = String::new();
    let mut i: usize = 0;
    while i < n
        invariant
            n == s@.len(),
            i <= n,
            out@ == ascii_lower_chars(s@.subrange(0, i as int)),
        decreases n - i,
    {
        let c = s.get_char(i);
        let mapped: char = if 'A' <= c && c <= 'Z' {
            (((c as u32) + 32) as u8) as char
        } else {
            c
        };
        proof {
            let pre = s@.subrange(0, i + 1);
            assert(pre.drop_last() =~= s@.subrange(0, i as int));
            assert(pre.last() == c);
        }
        push_char(&mut out, mapped);
        i = i + 1;
    }
    proof {
        assert(s@.subrange(0, n as int) =~= s@);
    }
    out
}

/// Names what `str::to_lowercase` yields: the Unicode-lowercased text, a
/// function of the characters alone.
pub uninterp spec fn unicode_lower_of(s: Seq<char>) -> Seq<char>;

/// Relies on `str::to_lowercase`: lowercases per Unicode, where one
/// character may lower to several.
#[verifier::external_body]
pub(crate) fn unicode_lowercase(s: &str) -> (r: String)
    ensures
        r@ == unicode_lower_of(s@),
{
    s.to_lowercase()
}

/// Whether `s` begins with `prefix`.
pub fn str_starts_with(s: &str, prefix: &str) -> (r: bool)
    ensures
        r == (s@.len() >= prefix@.len() && s@.subrange(0, prefix@.len() as int) == prefix@),
{
    let n: usize = s.unicode_len();
    let m: usize = prefix.unicode_len();
    if m > n {
        proof {
            assert(!(s@.len() >= prefix@.len()));
        }
        return false;
    }
    let mut i: usize = 0;
    while i < m
        invariant
            n == s@.len(),
            m == prefix@.len(),
            m <= n,
            i <= m,
            forall|j: int| 0 <= j < i ==> s@[j] == prefix@[j],
        decreases m - i,
    {
        if s.get_char(i) != prefix.get_char(i) {
            proof {
                assert(s@.subrange(0, m as int)[i as int] != prefix@[i as int]);
            }
            return false;
        }
        i = i + 1;
    }
    proof {
        assert(s@.subrange(0, m as int) =~= prefix@);
    }
    true
}

/// The decimal digits of `n`, most significant first.
pub open spec fn decimal_digits(n: nat) -> Seq<char>
    decreases n,
{
    if n < 10 {
        seq![((n + 48) as u8) as char]
    } else {
        decimal_digits(n / 10).push(((n % 10 + 48) as u8) as char)
    }
}

/// Writes a number in decimal.
pub fn usize_to_string(n: usize) -> (r: String)
    ensures
        r@ == decimal_digits(n as nat),
    decreases n,
{
    if n < 10 {
        let mut s = String::new();
        push_char(&mut s, (((n as u8) + 48) as u8) as char);
        proof {
            assert(s@ =~= seq![(((n + 48) as u8) as char)]);
        }
        s
    } else {
        let mut s = usize_to_string(n / 10);
        push_char(&mut s, ((n % 10) as u8 + 48) as char);
        s
    }
}

pub open spec fn spec_soft_hyphen() -> char {
    '\u{00AD}'
}

/// The text with every soft hyphen (U+00AD) deleted.
pub open spec fn remove_soft_hyphens_spec(s: Seq<char>) -> Seq<char>
    decreases s.len(),
{
    if s.len() == 0 {
        Seq::empty()
    } else if s.last() == spec_soft_hyphen() {
        remove_soft_hyphens_spec(s.drop_last())
    } else {
        remove_soft_hyphens_spec(s.drop_last()).push(s.last())
    }
}

/// Deletes every soft hyphen (U+00AD) from the text.
pub fn remove_soft_hyphens(input: &str) -> (r: String)
    ensures
        r@ == remove_soft_hyphens_spec(input@),
{
    let n: usize = input.unicode_len();
    let mut out = String::new();
    let mut i: usize = 0;
    while i < n
        invariant
            n == input@.len(),
            i <= n,
            out@ == remove_soft_hyphens_spec(input@.subrange(0, i as int)),
        decreases n - i,
    {
        let c = input.get_char(i);
        proof {
            let pre = input@.subrange(0, i + 1);
            assert(pre.drop_last() =~= input@.subrange(0, i as int));
            assert(pre.last() == c);
        }
        if c != '\u{00AD}' {
            push_char(&mut out, c);
        }
        i = i + 1;
    }
    proof {
        assert(input@.subrange(0, n as int) =~= input@);
    }
    out
}

/// What remains of the suffix of `s` from `i` on after whitespace runs are
/// collapsed, when `prev_space` says whether a space was just emitted.
pub open spec fn collapse_from(s: Seq<char>, i: int, prev_space: bool) -> Seq<char>
    decreases s.len() - i,
{
    if i < 0 || i >= s.len() {
        Seq::empty()
    } else if is_space_char(s[i]) {
        if prev_space {
            collapse_from(s, i + 1, true)
        } else {
            seq![' '] + collapse_from(s, i + 1, true)
        }
    } else {
        seq![s[i]] + collapse_from(s, i + 1, false)
    }
}

/// The leading whitespace run keeps its width, one space per character;
/// every later run of whitespace becomes a single space.
pub open spec fn collapse_whitespace_spec(s: Seq<char>) -> Seq<char> {
    let k = first_non_space_at(s, 0);
    Seq::new(k as nat, |_j: int| ' ') + collapse_from(s, k, false)
}

/// Replaces every maximal run of whitespace after the leading one with a
/// single space; the leading run keeps its width.
pub fn collapse_whitespace(input: &str) -> (r: String)
    ensures
        r@ == collapse_whitespace_spec(input@),
{
    let n: usize = input.unicode_len();
    let mut out = String::new();
    let mut prev_space = false;
    let mut i: usize = 0;
    while i < n && is_space(input.get_char(i))
        invariant
            n == input@.len(),
            i <= n,
            out@.len() == i,
            forall|j: int| 0 <= j < i ==> out@[j] == ' ',
            first_non_space_at(input@, 0) == first_non_space_at(input@, i as int),
        decreases n - i,
    {
        push_char(&mut out, ' ');
        i = i + 1;
    }
    proof {
        assert(first_non_space_at(input@, 0) == i);
        assert(out@ =~= Seq::new(i as nat, |_j: int| ' '));
        assert(collapse_whitespace_spec(input@) == out@ + collapse_from(input@, i as int, false));
    }
    while i < n
        invariant
            n == input@.len(),
            i <= n,
            collapse_whitespace_spec(input@) == out@ + collapse_from(input@, i as int, prev_space),
        decreases n - i,
    {
        let c = input.get_char(i);
        if is_space(c) {
            if !prev_space {
                push_char(&mut out, ' ');
                proof {
                    assert(out@ + collapse_from(input@, i + 1, true) =~= out@.drop_last() + (seq![
                        ' ',
                    ] + collapse_from(input@, i + 1, true)));
                }
            }
            prev_space = true;
        } else {
            push_char(&mut out, c);
            prev_space = false;
            proof {
                assert(out@ + collapse_from(input@, i + 1, false) =~= out@.drop_last() + (seq![c]
                    + collapse_from(input@, i + 1, false)));
            }
        }
        i = i + 1;
    }
    out
}

/// The least index at or after `i` holding a non-whitespace character, or the
/// length of `s` if there is none.
pub open spec fn first_non_space_at(s: Seq<char>, i: int) -> int
    decreases s.len() - i,
{
    if i < 0 || i >= s.len() {
        s.len() as int
    } else if !is_space_char(s[i]) {
        i
    } else {
        first_non_space_at(s, i + 1)
    }
}

/// The greatest index below `i` holding a non-whitespace character, plus one;
/// zero if there is none.
pub open spec fn last_non_space_before(s: Seq<char>, i: int) -> int
    decreases i,
{
    if i <= 0 || i > s.len() {
        0
    } else if !is_space_char(s[i - 1]) {
        i
    } else {
        last_non_space_before(s, i - 1)
    }
}

pub open spec fn trim_string_spec(s: Seq<char>) -> Seq<char> {
    let a = first_non_space_at(s, 0);
    let b = last_non_space_before(s, s.len() as int);
    if a >= b {
        Seq::empty()
    } else {
        s.subrange(a, b)
    }
}

pub proof fn lemma_first_non_space_bounds(s: Seq<char>, i: int)
    requires
        0 <= i <= s.len(),
    ensures
        i <= first_non_space_at(s, i) <= s.len(),
    decreases s.len() - i,
{
    if i < s.len() && is_space_char(s[i]) {
        lemma_first_non_space_bounds(s, i + 1);
    }
}

pub proof fn lemma_last_non_space_bounds(s: Seq<char>, i: int)
    requires
        0 <= i <= s.len(),
    ensures
        0 <= last_non_space_before(s, i) <= i,
    decreases i,
{
    if 0 < i <= s.len() && is_space_char(s[i - 1]) {
        lemma_last_non_space_bounds(s, i - 1);
    }
}

/// Trimming never lengthens a text.
pub proof fn lemma_trim_len(s: Seq<char>)
    ensures
        trim_string_spec(s).len() <= s.len(),
{
    lemma_first_non_space_bounds(s, 0);
    lemma_last_non_space_bounds(s, s.len() as int);
}

/// Removes whitespace (non-breaking spaces included) from both ends.
pub fn trim_string(s: &str) -> (r: String)
    ensures
        r@ == trim_string_spec(s@),
{
    let n: usize = s.unicode_len();
    let mut a: usize = 0;
    while a < n && is_space(s.get_char(a))
        invariant
            n == s@.len(),
            a <= n,
            first_non_space_at(s@, 0) == first_non_space_at(s@, a as int),
        decreases n - a,
    {
        a = a + 1;
    }
    proof {
        assert(first_non_space_at(s@, 0) == a);
    }
    let mut b: usize = n;
    while b > a && is_space(s.get_char(b - 1))
        invariant
            n == s@.len(),
            a <= b <= n,
            last_non_space_before(s@, n as int) == last_non_space_before(s@, b as int),
        decreases b,
    {
        b = b - 1;
    }
    proof {
        if b > a {
            assert(last_non_space_before(s@, n as int) == b);
        } else {
            lemma_last_non_space_bounds(s@, b as int);
            assert(last_non_space_before(s@, n as int) <= a);
        }
    }
    let r = s.substring_char(a, b);
    proof {
        if a >= last_non_space_before(s@, n as int) {
            assert(r@ =~= trim_string_spec(s@));
        }
    }
    String::from_str(r)
}

pub open spec fn plus_to_space_spec(s: Seq<char>) -> Seq<char> {
    s.map(
        |_i: int, c: char|
            if c == '+' {
                ' '
            } else {
                c
            },
    )
}

/// Names what `percent_encoding::percent_decode_str`, followed by a lossy
/// UTF-8 read of the decoded bytes, yields for a given input.
pub uninterp spec fn percent_decoded_of(s: Seq<char>) -> Seq<char>;

/// Relies on `percent_encoding::percent_decode_str`: decodes `%XX` escapes
/// byte-wise; the decoded bytes are then read as UTF-8, lossily.
#[verifier::external_body]
fn percent_decode_lossy(s: &str) -> (r: String)
    ensures
        r@ == percent_decoded_of(s@),
{
    percent_encoding::percent_decode_str(s).decode_utf8_lossy().into_owned()
}

/// Decodes a URL-encoded string: `+` becomes a space, then `%XX` escapes are
/// decoded and the result is read as UTF-8, lossily.
pub fn url_decode(input: &str) -> (r: String)
    ensures
        r@ == percent_decoded_of(plus_to_space_spec(input@)),
{
    let n: usize = input.unicode_len();
    let mut mapped = String::new();
    let mut i: usize = 0;
    while i < n
        invariant
            n == input@.len(),
            i <= n,
            mapped@ == plus_to_space_spec(input@.subrange(0, i as int)),
        decreases n - i,
    {
        let c = input.get_char(i);
        if c == '+' {
            push_char(&mut mapped, ' ');
        } else {
            push_char(&mut mapped, c);
        }
        proof {
            assert(mapped@ =~= plus_to_space_spec(input@.subrange(0, i + 1)));
        }
        i = i + 1;
    }
    proof {
        assert(input@.subrange(0, n as int) =~= input@);
        assert(mapped@ =~= plus_to_space_spec(input@));
    }
    percent_decode_lossy(mapped.as_str())
}

} // verus!
