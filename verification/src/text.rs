//! Character-level text helpers shared by the executor and the terminal
//! tracker: ASCII case folding, substring search, and leading-whitespace
//! trimming, each with an exact specification over `Seq<char>`.

use vstd::prelude::*;

verus! {

/// The code point of `c` with an ASCII upper-case letter folded to lower
/// case; every other character is left as it is. Folding is deliberately
/// ASCII-only: a character outside A-Z, such as a Unicode letter whose
/// lower-case form happens to be ASCII, is not folded.
pub open spec fn lower_code(c: char) -> int {
    if 65 <= c as int && c as int <= 90 {
        c as int + 32
    } else {
        c as int
    }
}

/// The code point of `c` as a machine integer.
pub fn char_code(c: char) -> (r: u32)
    ensures
        r == c as int,
{
    c as u32
}

/// Runtime ASCII case folding of a code point.
pub fn char_lower_code(c: char) -> (r: u32)
    ensures
        r == lower_code(c),
{
    let u = c as u32;
    if 65 <= u && u <= 90 {
        u + 32
    } else {
        u
    }
}

/// The lower-cased form of `text` matches `pat` literally at offset `i`.
pub open spec fn matches_lowered_at(text: Seq<char>, pat: Seq<char>, i: int) -> bool {
    &&& 0 <= i
    &&& i + pat.len() <= text.len()
    &&& forall|j: int| 0 <= j < pat.len() ==> lower_code(text[i + j]) == pat[j] as int
}

/// Some offset of the lower-cased `text` matches `pat` literally.
pub open spec fn contains_lowered(text: Seq<char>, pat: Seq<char>) -> bool {
    exists|i: int| matches_lowered_at(text, pat, i)
}

/// The lower-cased `text` begins with `pat`.
pub open spec fn starts_with_lowered(text: Seq<char>, pat: Seq<char>) -> bool {
    matches_lowered_at(text, pat, 0)
}

/// The lower-cased `text` begins with the token `pat`: the match is
/// followed by whitespace or the end of `text`, so a longer word that
/// merely shares the prefix does not count.
pub open spec fn starts_with_token_lowered(text: Seq<char>, pat: Seq<char>) -> bool {
    starts_with_lowered(text, pat) && (text.len() == pat.len() || is_space_char(
        text[pat.len() as int],
    ))
}

/// `text` matches `pat` exactly (no case folding) at offset `i`.
pub open spec fn matches_at(text: Seq<char>, pat: Seq<char>, i: int) -> bool {
    &&& 0 <= i
    &&& i + pat.len() <= text.len()
    &&& forall|j: int| 0 <= j < pat.len() ==> text[i + j] == pat[j]
}

/// The least offset at which `text` matches `pat` exactly, if any.
pub open spec fn first_match(text: Seq<char>, pat: Seq<char>) -> Option<int>
    decreases text.len(),
{
    if pat.len() > text.len() {
        None
    } else if matches_at(text, pat, 0) {
        Some(0int)
    } else {
        match first_match(text.drop_first(), pat) {
            Some(i) => Some(i + 1),
            None => None,
        }
    }
}

/// A match at `i` on the rest of `text` is a match at `from + i` on `text`.
proof fn lemma_matches_at_skip(text: Seq<char>, pat: Seq<char>, from: int, i: int)
    requires
        0 <= from <= text.len(),
        0 <= i,
    ensures
        matches_at(text.skip(from), pat, i) == matches_at(text, pat, from + i),
{
    if matches_at(text.skip(from), pat, i) {
        assert forall|j: int| 0 <= j < pat.len() implies text[from + i + j] == pat[j] by {
            assert(text.skip(from)[i + j] == pat[j]);
        }
    }
    if matches_at(text, pat, from + i) {
        assert forall|j: int| 0 <= j < pat.len() implies text.skip(from)[i + j] == pat[j] by {
            assert(text[from + i + j] == pat[j]);
        }
    }
}

/// `first_match` returns exactly the least matching offset: if no offset
/// below `i` matches and `i` matches, the result is `i`; if no offset
/// matches at all, the result is `None`.
proof fn lemma_first_match_characterises(text: Seq<char>, pat: Seq<char>, i: int)
    requires
        forall|k: int| 0 <= k < i ==> !matches_at(text, pat, k),
    ensures
        matches_at(text, pat, i) ==> first_match(text, pat) == Some(i),
        (forall|k: int| !matches_at(text, pat, k)) ==> first_match(text, pat).is_none(),
    decreases text.len(),
{
    assert(text.skip(1) =~= text.drop_first());
    if pat.len() > text.len() {
        // no offset can match, and first_match is None by definition
    } else if matches_at(text, pat, 0) {
        // i must be 0, and first_match is Some(0) by definition
    } else {
        assert forall|k: int| 0 <= k < i - 1 implies !matches_at(
            text.drop_first(),
            pat,
            k,
        ) by {
            lemma_matches_at_skip(text, pat, 1, k);
        }
        lemma_first_match_characterises(text.drop_first(), pat, i - 1);
        if matches_at(text, pat, i) {
            lemma_matches_at_skip(text, pat, 1, i - 1);
        }
        if forall|k: int| !matches_at(text, pat, k) {
            assert forall|k: int| !matches_at(text.drop_first(), pat, k) by {
                if matches_at(text.drop_first(), pat, k) {
                    lemma_matches_at_skip(text, pat, 1, k);
                }
            }
        }
    }
}

/// The characters of `s`, in order, as a vector.
pub fn str_to_chars(s: &str) -> (v: Vec<char>)
    ensures
        v@ == s@,
{
    let n = s.unicode_len();
    let mut v: Vec<char> = Vec::new();
    let mut i: usize = 0;
    while i < n
        invariant
            i <= n,
            n == s@.len(),
            v@ == s@.subrange(0, i as int),
        decreases n - i,
    {
        v.push(s.get_char(i));
        i = i + 1;
    }
    assert(v@ =~= s@);
    v
}

/// Finds the least offset at or after `from` at which `text` matches `pat`
/// exactly; mirrors `first_match` on the rest of `text`.
pub fn find_from(text: &Vec<char>, pat: &Vec<char>, from: usize) -> (r: Option<usize>)
    requires
        from <= text@.len(),
    ensures
        match r {
            Some(i) => from <= i && i + pat@.len() <= text@.len() && first_match(
                text@.skip(from as int),
                pat@,
            ) == Some(i - from),
            None => first_match(text@.skip(from as int), pat@).is_none(),
        },
{
    let n = text.len();
    let m = pat.len();
    if m > n - from {
        proof {
            lemma_first_match_characterises(text@.skip(from as int), pat@, 0);
        }
        return None;
    }
    let mut i: usize = from;
    while i <= n - m
        invariant
            from <= i,
            i <= n - m + 1,
            m <= n,
            m == pat@.len(),
            n == text@.len(),
            forall|k: int| 0 <= k < i - from ==> !matches_at(text@.skip(from as int), pat@, k),
        decreases n - i,
    {
        let mut j: usize = 0;
        while j < m && text[i + j] == pat[j]
            invariant
                0 <= j <= m,
                i + m <= n,
                m == pat@.len(),
                n == text@.len(),
                forall|l: int| 0 <= l < j ==> text@[i + l] == pat@[l],
            decreases m - j,
        {
            j = j + 1;
        }
        if j == m {
            proof {
                assert(matches_at(text@, pat@, i as int));
                lemma_matches_at_skip(text@, pat@, from as int, i - from);
                lemma_first_match_characterises(text@.skip(from as int), pat@, i - from);
            }
            return Some(i);
        }
        proof {
            assert(text@[i + j] != pat@[j as int]);
            assert(!matches_at(text@, pat@, i as int));
            lemma_matches_at_skip(text@, pat@, from as int, i - from);
        }
        i = i + 1;
    }
    proof {
        assert forall|k: int| !matches_at(text@.skip(from as int), pat@, k) by {
            if matches_at(text@.skip(from as int), pat@, k) {
                lemma_matches_at_skip(text@, pat@, from as int, k);
                assert(0 <= k < i - from);
            }
        }
        lemma_first_match_characterises(text@.skip(from as int), pat@, 0);
    }
    None
}

/// Whether the lower-cased `text` contains `pat` at some offset.
pub fn contains_lowered_chars(text: &Vec<char>, pat: &Vec<char>) -> (r: bool)
    ensures
        r == contains_lowered(text@, pat@),
{
    let n = text.len();
    let m = pat.len();
    if m > n {
        return false;
    }
    let mut i: usize = 0;
    while i <= n - m
        invariant
            0 <= i,
            i <= n - m + 1,
            m == pat@.len(),
            n == text@.len(),
            m <= n,
            forall|k: int| 0 <= k < i ==> !matches_lowered_at(text@, pat@, k),
        decreases n - i,
    {
        let mut j: usize = 0;
        while j < m && char_lower_code(text[i + j]) == char_code(pat[j])
            invariant
                0 <= j <= m,
                i + m <= n,
                m == pat@.len(),
                n == text@.len(),
                forall|l: int| 0 <= l < j ==> lower_code(text@[i + l]) == pat@[l] as int,
            decreases m - j,
        {
            j = j + 1;
        }
        if j == m {
            proof {
                assert(matches_lowered_at(text@, pat@, i as int));
            }
            return true;
        }
        proof {
            assert(lower_code(text@[i + j]) != pat@[j as int] as int);
            assert(!matches_lowered_at(text@, pat@, i as int));
        }
        i = i + 1;
    }
    proof {
        assert forall|k: int| !matches_lowered_at(text@, pat@, k) by {
            if matches_lowered_at(text@, pat@, k) {
                assert(0 <= k < i);
            }
        }
    }
    false
}

/// A character the leading-whitespace trim removes: the Unicode
/// `White_Space` set.
pub open spec fn is_space_char(c: char) -> bool {
    ||| (9 <= c as int && c as int <= 13)
    ||| c as int == 32
    ||| c as int == 0x85
    ||| c as int == 0xA0
    ||| c as int == 0x1680
    ||| (0x2000 <= c as int && c as int <= 0x200A)
    ||| c as int == 0x2028
    ||| c as int == 0x2029
    ||| c as int == 0x202F
    ||| c as int == 0x205F
    ||| c as int == 0x3000
}

/// Runtime test for `is_space_char`.
pub fn char_is_space(c: char) -> (r: bool)
    ensures
        r == is_space_char(c),
{
    let u = c as u32;
    (9 <= u && u <= 13) || u == 32 || u == 0x85 || u == 0xA0 || u == 0x1680 || (0x2000 <= u && u
        <= 0x200A) || u == 0x2028 || u == 0x2029 || u == 0x202F || u == 0x205F || u == 0x3000
}

/// The number of leading whitespace characters of `s`.
pub open spec fn leading_spaces(s: Seq<char>) -> int
    decreases s.len(),
{
    if s.len() == 0 {
        0
    } else if is_space_char(s[0]) {
        1 + leading_spaces(s.drop_first())
    } else {
        0
    }
}

/// `leading_spaces` counts exactly the longest whitespace prefix.
proof fn lemma_leading_spaces_bound(s: Seq<char>)
    ensures
        0 <= leading_spaces(s) <= s.len(),
        forall|k: int| 0 <= k < leading_spaces(s) ==> is_space_char(s[k]),
        leading_spaces(s) < s.len() ==> !is_space_char(s[leading_spaces(s)]),
    decreases s.len(),
{
    if s.len() > 0 && is_space_char(s[0]) {
        lemma_leading_spaces_bound(s.drop_first());
        assert forall|k: int| 0 <= k < leading_spaces(s) implies is_space_char(s[k]) by {
            if k > 0 {
                assert(is_space_char(s.drop_first()[k - 1]));
            }
        }
        if leading_spaces(s) < s.len() {
            assert(!is_space_char(s.drop_first()[leading_spaces(s) - 1]));
        }
    }
}

/// The offset of the first non-whitespace character of `text`, or its
/// length if there is none.
pub fn skip_leading_spaces(text: &Vec<char>) -> (r: usize)
    ensures
        r == leading_spaces(text@),
        r <= text@.len(),
{
    let n = text.len();
    let mut i: usize = 0;
    while i < n
        invariant
            i <= n,
            n == text@.len(),
            forall|k: int| 0 <= k < i ==> is_space_char(text@[k]),
        decreases n - i,
    {
        if !char_is_space(text[i]) {
            proof {
                lemma_leading_spaces_bound(text@);
                assert(leading_spaces(text@) == i) by {
                    lemma_leading_spaces_bound(text@);
                    if leading_spaces(text@) < i {
                        assert(is_space_char(text@[leading_spaces(text@)]));
                    }
                    if leading_spaces(text@) > i {
                        assert(is_space_char(text@[i as int]));
                    }
                }
            }
            return i;
        }
        i = i + 1;
    }
    proof {
        lemma_leading_spaces_bound(text@);
        assert(leading_spaces(text@) == n) by {
            lemma_leading_spaces_bound(text@);
            if leading_spaces(text@) < n {
                assert(is_space_char(text@[leading_spaces(text@)]));
            }
        }
    }
    n
}

/// The elements of `text` from `from` (inclusive) to `to` (exclusive).
pub fn subvec(text: &Vec<char>, from: usize, to: usize) -> (v: Vec<char>)
    requires
        from <= to <= text@.len(),
    ensures
        v@ == text@.subrange(from as int, to as int),
{
    let mut v: Vec<char> = Vec::new();
    let mut i: usize = from;
    while i < to
        invariant
            from <= i <= to,
            to <= text@.len(),
            v@ == text@.subrange(from as int, i as int),
        decreases to - i,
    {
        v.push(text[i]);
        proof {
            assert(v@ =~= text@.subrange(from as int, i + 1 as int));
        }
        i = i + 1;
    }
    v
}

/// The decimal digit character for `d`.
pub open spec fn digit_char(d: int) -> char {
    (48 + d) as char
}

/// The decimal representation of `n`, most significant digit first.
pub open spec fn dec_digits(n: int) -> Seq<char>
    decreases n,
{
    if n < 10 {
        seq![digit_char(n)]
    } else {
        dec_digits(n / 10).push(digit_char(n % 10))
    }
}

/// The one-character string for the decimal digit `d`.
fn digit_str(d: u64) -> (r: &'static str)
    requires
        d < 10,
    ensures
        r@ == seq![digit_char(d as int)],
{
    proof {
        reveal_strlit("0");
        reveal_strlit("1");
        reveal_strlit("2");
        reveal_strlit("3");
        reveal_strlit("4");
        reveal_strlit("5");
        reveal_strlit("6");
        reveal_strlit("7");
        reveal_strlit("8");
        reveal_strlit("9");
    }
    match d {
        0 => "0",
        1 => "1",
        2 => "2",
        3 => "3",
        4 => "4",
        5 => "5",
        6 => "6",
        7 => "7",
        8 => "8",
        _ => "9",
    }
}

/// Writes `n` in decimal.
pub fn u64_to_string(n: u64) -> (r: String)
    ensures
        r@ == dec_digits(n as int),
    decreases n,
{
    if n < 10 {
        digit_str(n).to_owned()
    } else {
        let mut r = u64_to_string(n / 10);
        r.append(digit_str(n % 10));
        proof {
            assert(r@ =~= dec_digits((n / 10) as int).push(digit_char((n % 10) as int)));
        }
        r
    }
}

/// Whether `text` begins with `pat`, compared exactly.
pub fn starts_with_exact(text: &Vec<char>, pat: &Vec<char>) -> (r: bool)
    ensures
        r == matches_at(text@, pat@, 0),
{
    let n = text.len();
    let m = pat.len();
    if m > n {
        return false;
    }
    let mut j: usize = 0;
    while j < m && text[j] == pat[j]
        invariant
            0 <= j <= m,
            m <= n,
            m == pat@.len(),
            n == text@.len(),
            forall|l: int| 0 <= l < j ==> text@[l] == pat@[l],
        decreases m - j,
    {
        j = j + 1;
    }
    if j == m {
        proof {
            assert(matches_at(text@, pat@, 0));
        }
        true
    } else {
        proof {
            assert(text@[j as int] != pat@[j as int]);
        }
        false
    }
}

} // verus!
