//! Character-level text utilities: counting, searching, splitting a buffer
//! into lines, and rendering numbers. All executable functions are verified
//! against the spec functions defined here; the spec functions are the
//! single mathematical account of how the analyzer reads text.

use vstd::prelude::*;

verus! {

/// Relies on std's `String::push`: appends the given `char` to the end of
/// the string.
pub assume_specification[ String::push ](s: &mut String, c: char)
    ensures
        final(s)@ == old(s)@.push(c),
;

/// How many times `c` occurs in `s`.
pub open spec fn count_char(s: Seq<char>, c: char) -> nat
    decreases s.len(),
{
    if s.len() == 0 {
        0
    } else {
        count_char(s.drop_last(), c) + if s.last() == c {
            1nat
        } else {
            0nat
        }
    }
}

/// Index of the first occurrence of `c` in `s`, or `s.len()` if absent.
pub open spec fn find_char(s: Seq<char>, c: char) -> int
    decreases s.len(),
{
    if s.len() == 0 {
        0
    } else if s[0] == c {
        0
    } else {
        1 + find_char(s.drop_first(), c)
    }
}

pub proof fn lemma_find_char(s: Seq<char>, c: char)
    ensures
        0 <= find_char(s, c) <= s.len(),
        forall|k: int| 0 <= k < find_char(s, c) ==> s[k] != c,
        find_char(s, c) < s.len() ==> s[find_char(s, c)] == c,
    decreases s.len(),
{
    if s.len() > 0 && s[0] != c {
        lemma_find_char(s.drop_first(), c);
        assert forall|k: int| 0 <= k < find_char(s, c) implies s[k] != c by {
            if k > 0 {
                assert(s.drop_first()[k - 1] == s[k]);
            }
        }
    }
}

pub proof fn lemma_find_char_at(s: Seq<char>, c: char, j: int)
    requires
        0 <= j <= s.len(),
        forall|k: int| 0 <= k < j ==> s[k] != c,
        j < s.len() ==> s[j] == c,
    ensures
        find_char(s, c) == j,
    decreases s.len(),
{
    if s.len() > 0 && s[0] != c {
        assert forall|k: int| 0 <= k < j - 1 implies s.drop_first()[k] != c by {
            assert(s.drop_first()[k] == s[k + 1]);
        }
        lemma_find_char_at(s.drop_first(), c, j - 1);
    }
}

/// First index of `c` in `s`, or `s.len()` when `c` does not occur.
pub fn find_char_in(s: &[char], c: char) -> (r: usize)
    ensures
        r == find_char(s@, c),
{
    let mut i: usize = 0;
    while i < s.len()
        invariant
            0 <= i <= s@.len(),
            forall|k: int| 0 <= k < i ==> s@[k] != c,
        decreases s@.len() - i,
    {
        if s[i] == c {
            proof {
                lemma_find_char_at(s@, c, i as int);
            }
            return i;
        }
        i += 1;
    }
    proof {
        lemma_find_char_at(s@, c, s@.len() as int);
    }
    i
}

pub fn count_char_in(s: &[char], c: char) -> (n: usize)
    ensures
        n == count_char(s@, c),
{
    let mut n: usize = 0;
    let mut i: usize = 0;
    while i < s.len()
        invariant
            0 <= i <= s@.len(),
            n == count_char(s@.take(i as int), c),
            n <= i,
        decreases s@.len() - i,
    {
        proof {
            assert(s@.take(i + 1 as int).drop_last() =~= s@.take(i as int));
            assert(s@.take(i + 1 as int).last() == s@[i as int]);
        }
        if s[i] == c {
            n += 1;
        }
        i += 1;
    }
    proof {
        assert(s@.take(i as int) =~= s@);
    }
    n
}

/// `pat` occurs in `s` starting at index `i`.
pub open spec fn is_match_at(s: Seq<char>, pat: Seq<char>, i: int) -> bool {
    0 <= i && i + pat.len() <= s.len() && s.subrange(i, i + pat.len()) == pat
}

/// First index `>= p` at which `pat` occurs in `s`, or `s.len()` if there
/// is none.
pub open spec fn find_sub_from(s: Seq<char>, pat: Seq<char>, p: int) -> int
    decreases s.len() - p
        when 0 <= p <= s.len()
{
    if p + pat.len() > s.len() {
        s.len() as int
    } else if pat.len() == 0 {
        p
    } else if s.subrange(p, p + pat.len()) == pat {
        p
    } else {
        find_sub_from(s, pat, p + 1)
    }
}

/// First index at which `pat` occurs in `s`, or `s.len()` if it does not.
pub open spec fn find_sub(s: Seq<char>, pat: Seq<char>) -> int {
    find_sub_from(s, pat, 0)
}

/// `pat` occurs somewhere in `s` (for non-empty `pat`).
pub open spec fn contains_sub(s: Seq<char>, pat: Seq<char>) -> bool {
    find_sub(s, pat) < s.len()
}

pub proof fn lemma_find_sub_from(s: Seq<char>, pat: Seq<char>, p: int)
    requires
        0 <= p <= s.len(),
    ensures
        p <= find_sub_from(s, pat, p) <= s.len(),
        find_sub_from(s, pat, p) < s.len() ==> is_match_at(s, pat, find_sub_from(s, pat, p)),
    decreases s.len() - p,
{
    if p + pat.len() > s.len() {
    } else if pat.len() == 0 {
        assert(s.subrange(p, p) =~= pat);
    } else if s.subrange(p, p + pat.len()) == pat {
    } else {
        lemma_find_sub_from(s, pat, p + 1);
    }
}

pub proof fn lemma_find_sub(s: Seq<char>, pat: Seq<char>)
    ensures
        0 <= find_sub(s, pat) <= s.len(),
        find_sub(s, pat) < s.len() ==> is_match_at(s, pat, find_sub(s, pat)),
{
    lemma_find_sub_from(s, pat, 0);
}

/// `s` starts with `pat`.
pub open spec fn has_prefix(s: Seq<char>, pat: Seq<char>) -> bool {
    pat.len() <= s.len() && s.subrange(0, pat.len() as int) == pat
}

/// Whether the characters of `s` from `i` on match `pat` exactly.
pub fn match_str_at(s: &[char], pat: &str, i: usize) -> (b: bool)
    requires
        i <= s@.len(),
    ensures
        b == is_match_at(s@, pat@, i as int),
{
    let n = pat.unicode_len();
    if n > s.len() - i {
        return false;
    }
    let mut j: usize = 0;
    while j < n
        invariant
            0 <= j <= n,
            n == pat@.len(),
            i + n <= s@.len(),
            s@.len() <= usize::MAX,
            forall|k: int| 0 <= k < j ==> s@[i + k] == pat@[k],
        decreases n - j,
    {
        if s[i + j] != pat.get_char(j) {
            assert(s@.subrange(i as int, i + pat@.len()) != pat@) by {
                assert(s@.subrange(i as int, i + pat@.len())[j as int] == s@[i + j]);
            }
            return false;
        }
        j += 1;
    }
    proof {
        assert(s@.subrange(i as int, i + pat@.len()) =~= pat@);
    }
    true
}

/// First index at which `pat` occurs in `s`, or `s.len()` when it does not.
pub fn find_str_in(s: &[char], pat: &str) -> (r: usize)
    ensures
        r == find_sub(s@, pat@),
{
    let n = pat.unicode_len();
    if n == 0 {
        proof {
            assert(s@.subrange(0, 0) =~= pat@);
        }
        return 0;
    }
    if n > s.len() {
        return s.len();
    }
    let mut p: usize = 0;
    loop
        invariant
            1 <= n == pat@.len() <= s@.len(),
            0 <= p <= s@.len() - n + 1,
            s@.len() <= usize::MAX,
            find_sub(s@, pat@) == find_sub_from(s@, pat@, p as int),
        decreases s@.len() - p,
    {
        if p > s.len() - n {
            return s.len();
        }
        if match_str_at(s, pat, p) {
            return p;
        }
        p += 1;
    }
}

/// Whether `pat` occurs somewhere in `s` (`pat` non-empty).
pub fn contains_str_in(s: &[char], pat: &str) -> (b: bool)
    ensures
        b == contains_sub(s@, pat@),
{
    let r = find_str_in(s, pat);
    r < s.len()
}

/// Whether `c` occurs in `s`.
pub fn contains_char_in(s: &[char], c: char) -> (b: bool)
    ensures
        b == (find_char(s@, c) < s@.len()),
{
    let r = find_char_in(s, c);
    r < s.len()
}

/// Whether `s` equals the characters of `pat`.
pub fn chars_eq_str(s: &[char], pat: &str) -> (b: bool)
    ensures
        b == (s@ == pat@),
{
    let n = pat.unicode_len();
    if n != s.len() {
        return false;
    }
    let b = match_str_at(s, pat, 0);
    proof {
        if b {
            assert(s@.subrange(0, pat@.len() as int) =~= s@);
        }
        if s@ == pat@ {
            assert(s@.subrange(0, pat@.len() as int) =~= pat@);
        }
    }
    b
}

/// Whether the two character slices hold the same characters.
pub fn chars_eq(a: &[char], b: &[char]) -> (r: bool)
    ensures
        r == (a@ == b@),
{
    if a.len() != b.len() {
        return false;
    }
    let mut i: usize = 0;
    while i < a.len()
        invariant
            0 <= i <= a@.len(),
            a@.len() == b@.len(),
            forall|k: int| 0 <= k < i ==> a@[k] == b@[k],
        decreases a@.len() - i,
    {
        if a[i] != b[i] {
            return false;
        }
        i += 1;
    }
    proof {
        assert(a@ =~= b@);
    }
    true
}

/// Whether `s` starts with `pat`.
pub fn starts_with_str(s: &[char], pat: &str) -> (b: bool)
    ensures
        b == has_prefix(s@, pat@),
{
    let n = pat.unicode_len();
    if n > s.len() {
        return false;
    }
    match_str_at(s, pat, 0)
}

/// Builds an owned `String` out of a character slice.
pub fn chars_to_string(s: &[char]) -> (r: String)
    ensures
        r@ == s@,
{
    let mut r = String::new();
    let mut i: usize = 0;
    while i < s.len()
        invariant
            0 <= i <= s@.len(),
            r@ == s@.take(i as int),
        decreases s@.len() - i,
    {
        r.push(s[i]);
        proof {
            assert(s@.take(i + 1 as int) =~= s@.take(i as int).push(s@[i as int]));
        }
        i += 1;
    }
    proof {
        assert(s@.take(i as int) =~= s@);
    }
    r
}

/// Collects the characters of a string slice.
pub fn str_to_chars(s: &str) -> (r: Vec<char>)
    ensures
        r@ == s@,
{
    let n = s.unicode_len();
    let mut r: Vec<char> = Vec::new();
    let mut i: usize = 0;
    while i < n
        invariant
            0 <= i <= n,
            n == s@.len(),
            r@ == s@.take(i as int),
        decreases n - i,
    {
        r.push(s.get_char(i));
        proof {
            assert(s@.take(i + 1 as int) =~= s@.take(i as int).push(s@[i as int]));
        }
        i += 1;
    }
    proof {
        assert(s@.take(i as int) =~= s@);
    }
    r
}

/// The decimal digit character for `d` (defined for `d < 10`).
pub open spec fn dec_digit(d: int) -> char {
    if d == 0 {
        '0'
    } else if d == 1 {
        '1'
    } else if d == 2 {
        '2'
    } else if d == 3 {
        '3'
    } else if d == 4 {
        '4'
    } else if d == 5 {
        '5'
    } else if d == 6 {
        '6'
    } else if d == 7 {
        '7'
    } else if d == 8 {
        '8'
    } else {
        '9'
    }
}

/// The decimal rendering of `n`, without sign or leading zeros.
pub open spec fn dec_str(n: nat) -> Seq<char>
    decreases n,
{
    if n < 10 {
        seq![dec_digit(n as int)]
    } else {
        dec_str(n / 10) + seq![dec_digit((n % 10) as int)]
    }
}

fn digit_char(d: usize) -> (c: char)
    requires
        d < 10,
    ensures
        c == dec_digit(d as int),
{
    if d == 0 {
        '0'
    } else if d == 1 {
        '1'
    } else if d == 2 {
        '2'
    } else if d == 3 {
        '3'
    } else if d == 4 {
        '4'
    } else if d == 5 {
        '5'
    } else if d == 6 {
        '6'
    } else if d == 7 {
        '7'
    } else if d == 8 {
        '8'
    } else {
        '9'
    }
}

/// Renders `n` in decimal.
pub fn usize_to_string(n: usize) -> (r: String)
    ensures
        r@ == dec_str(n as nat),
    decreases n,
{
    let d = digit_char(n % 10);
    if n < 10 {
        let mut r = String::new();
        r.push(d);
        proof {
            assert(Seq::<char>::empty().push(dec_digit(n as int)) =~= seq![dec_digit(n as int)]);
        }
        r
    } else {
        let mut r = usize_to_string(n / 10);
        r.push(d);
        proof {
            assert(dec_str((n / 10) as nat).push(dec_digit((n % 10) as int)) =~= dec_str(
                (n / 10) as nat,
            ) + seq![dec_digit((n % 10) as int)]);
        }
        r
    }
}

/// Identifier characters: ASCII letters, digits and the underscore.
/// Identifiers are ASCII-only throughout the analyzer: a non-ASCII
/// letter neither extends a word nor counts as a word boundary, so
/// non-ASCII names are not recognized as calls and are not renamed.
pub open spec fn is_word_char(c: char) -> bool {
    ('a' as u32) <= (c as u32) && (c as u32) <= ('z' as u32) || ('A' as u32) <= (c as u32) && (
    c as u32) <= ('Z' as u32) || ('0' as u32) <= (c as u32) && (c as u32) <= ('9' as u32) || c
        == '_'
}

/// Horizontal whitespace as the analyzer understands it.
pub open spec fn is_space(c: char) -> bool {
    c == ' ' || c == '\t' || c == '\r'
}

pub fn word_char(c: char) -> (b: bool)
    ensures
        b == is_word_char(c),
{
    let u = c as u32;
    ('a' as u32) <= u && u <= ('z' as u32) || ('A' as u32) <= u && u <= ('Z' as u32) || ('0'
        as u32) <= u && u <= ('9' as u32) || c == '_'
}

pub fn space_char(c: char) -> (b: bool)
    ensures
        b == is_space(c),
{
    c == ' ' || c == '\t' || c == '\r'
}

/// Length of the run of characters satisfying "equal to `c`" at the front.
pub open spec fn leading_run(s: Seq<char>, c: char) -> int
    decreases s.len(),
{
    if s.len() == 0 || s[0] != c {
        0
    } else {
        1 + leading_run(s.drop_first(), c)
    }
}

pub proof fn lemma_leading_run_at(s: Seq<char>, c: char, j: int)
    requires
        0 <= j <= s.len(),
        forall|k: int| 0 <= k < j ==> s[k] == c,
        j < s.len() ==> s[j] != c,
    ensures
        leading_run(s, c) == j,
    decreases s.len(),
{
    if s.len() > 0 && s[0] == c {
        assert forall|k: int| 0 <= k < j - 1 implies s.drop_first()[k] == c by {
            assert(s.drop_first()[k] == s[k + 1]);
        }
        lemma_leading_run_at(s.drop_first(), c, j - 1);
    }
}

/// Length of the run of `c` characters at the front of `s`.
pub fn leading_run_in(s: &[char], c: char) -> (r: usize)
    ensures
        r == leading_run(s@, c),
{
    let mut i: usize = 0;
    while i < s.len()
        invariant
            0 <= i <= s@.len(),
            forall|k: int| 0 <= k < i ==> s@[k] == c,
        decreases s@.len() - i,
    {
        if s[i] != c {
            proof {
                lemma_leading_run_at(s@, c, i as int);
            }
            return i;
        }
        i += 1;
    }
    proof {
        lemma_leading_run_at(s@, c, s@.len() as int);
    }
    i
}

/// Start of the maximal run of identifier characters that ends just
/// before position `j`.
pub open spec fn word_run_start(s: Seq<char>, j: int) -> int
    decreases j
        when 0 <= j <= s.len()
{
    if j <= 0 || !is_word_char(s[j - 1]) {
        j
    } else {
        word_run_start(s, j - 1)
    }
}

pub proof fn lemma_word_run_start(s: Seq<char>, j: int)
    requires
        0 <= j <= s.len(),
    ensures
        0 <= word_run_start(s, j) <= j,
        forall|k: int| word_run_start(s, j) <= k < j ==> is_word_char(s[k]),
        word_run_start(s, j) > 0 ==> !is_word_char(s[word_run_start(s, j) - 1]),
    decreases j,
{
    if j > 0 && is_word_char(s[j - 1]) {
        lemma_word_run_start(s, j - 1);
    }
}

/// End of the maximal run of identifier characters that starts at
/// position `j`.
pub open spec fn word_run_end(s: Seq<char>, j: int) -> int
    decreases s.len() - j
        when 0 <= j <= s.len()
{
    if j >= s.len() || !is_word_char(s[j]) {
        j
    } else {
        word_run_end(s, j + 1)
    }
}

pub proof fn lemma_word_run_end(s: Seq<char>, j: int)
    requires
        0 <= j <= s.len(),
    ensures
        j <= word_run_end(s, j) <= s.len(),
        forall|k: int| j <= k < word_run_end(s, j) ==> is_word_char(s[k]),
        word_run_end(s, j) < s.len() ==> !is_word_char(s[word_run_end(s, j)]),
    decreases s.len() - j,
{
    if j < s.len() && is_word_char(s[j]) {
        lemma_word_run_end(s, j + 1);
    }
}

/// Whether the characters of `s` from `i` on match `pat` exactly.
pub fn match_chars_at(s: &[char], pat: &[char], i: usize) -> (b: bool)
    requires
        i <= s@.len(),
    ensures
        b == is_match_at(s@, pat@, i as int),
{
    let n = pat.len();
    if n > s.len() - i {
        return false;
    }
    let mut j: usize = 0;
    while j < n
        invariant
            0 <= j <= n,
            n == pat@.len(),
            i + n <= s@.len(),
            s@.len() <= usize::MAX,
            forall|k: int| 0 <= k < j ==> s@[i + k] == pat@[k],
        decreases n - j,
    {
        if s[i + j] != pat[j] {
            assert(s@.subrange(i as int, i + pat@.len()) != pat@) by {
                assert(s@.subrange(i as int, i + pat@.len())[j as int] == s@[i + j]);
            }
            return false;
        }
        j += 1;
    }
    proof {
        assert(s@.subrange(i as int, i + pat@.len()) =~= pat@);
    }
    true
}

/// The pieces joined with `sep` between consecutive pieces.
pub open spec fn join_sep(ls: Seq<Seq<char>>, sep: Seq<char>) -> Seq<char>
    decreases ls.len(),
{
    if ls.len() == 0 {
        Seq::empty()
    } else if ls.len() == 1 {
        ls[0]
    } else {
        ls[0] + sep + join_sep(ls.drop_first(), sep)
    }
}

pub proof fn lemma_join_sep_push(ls: Seq<Seq<char>>, sep: Seq<char>, x: Seq<char>)
    ensures
        join_sep(ls.push(x), sep) == if ls.len() == 0 {
            x
        } else {
            join_sep(ls, sep) + sep + x
        },
    decreases ls.len(),
{
    if ls.len() == 0 {
        assert(ls.push(x)[0] == x);
        assert(join_sep(ls.push(x), sep) == x);
    } else if ls.len() == 1 {
        assert(ls.push(x).drop_first() =~= seq![x]);
        assert(join_sep(seq![x], sep) == seq![x][0]);
        assert(seq![x][0] == x);
        assert(ls.push(x)[0] == ls[0]);
        assert(join_sep(ls.push(x), sep) == ls[0] + sep + x);
    } else {
        assert(ls.push(x).drop_first() =~= ls.drop_first().push(x));
        lemma_join_sep_push(ls.drop_first(), sep, x);
        assert(join_sep(ls, sep) + sep + x =~= ls[0] + sep + (join_sep(ls.drop_first(), sep) + sep
            + x));
    }
}

/// Joins character vectors into one string, with `sep` between pieces.
pub fn join_chars(ls: &[Vec<char>], sep: &str) -> (r: String)
    ensures
        r@ == join_sep(line_views(ls@), sep@),
{
    let ghost lv = line_views(ls@);
    let mut r = String::new();
    let mut i: usize = 0;
    while i < ls.len()
        invariant
            0 <= i <= ls@.len(),
            lv == line_views(ls@),
            r@ == join_sep(lv.take(i as int), sep@),
        decreases ls@.len() - i,
    {
        if i > 0 {
            r.append(sep);
        }
        let piece = chars_to_string(ls[i].as_slice());
        r.append(piece.as_str());
        proof {
            assert(lv.take(i + 1 as int) =~= lv.take(i as int).push(lv[i as int]));
            lemma_join_sep_push(lv.take(i as int), sep@, lv[i as int]);
            assert(lv[i as int] == ls@[i as int]@);
        }
        i += 1;
    }
    proof {
        assert(lv.take(i as int) =~= lv);
    }
    r
}

/// Length of the run of non-whitespace characters at the back of `s`.
pub open spec fn trailing_nonspace(s: Seq<char>) -> int
    decreases s.len(),
{
    if s.len() == 0 || is_space(s.last()) {
        0
    } else {
        1 + trailing_nonspace(s.drop_last())
    }
}

/// The last whitespace-separated token of `s` (empty if `s` ends in
/// whitespace).
pub open spec fn last_token(s: Seq<char>) -> Seq<char> {
    s.skip(s.len() - trailing_nonspace(s))
}

pub proof fn lemma_trailing_nonspace(s: Seq<char>)
    ensures
        0 <= trailing_nonspace(s) <= s.len(),
        forall|k: int| s.len() - trailing_nonspace(s) <= k < s.len() ==> !is_space(s[k]),
        trailing_nonspace(s) < s.len() ==> is_space(s[s.len() - trailing_nonspace(s) - 1]),
    decreases s.len(),
{
    if s.len() > 0 && !is_space(s.last()) {
        lemma_trailing_nonspace(s.drop_last());
        assert forall|k: int| s.len() - trailing_nonspace(s) <= k < s.len() implies !is_space(
            s[k],
        ) by {
            if k < s.len() - 1 {
                assert(s.drop_last()[k] == s[k]);
            }
        }
    }
}

pub proof fn lemma_trailing_nonspace_at(s: Seq<char>, j: int)
    requires
        0 <= j <= s.len(),
        forall|k: int| s.len() - j <= k < s.len() ==> !is_space(s[k]),
        j < s.len() ==> is_space(s[s.len() - j - 1]),
    ensures
        trailing_nonspace(s) == j,
    decreases s.len(),
{
    if s.len() > 0 && !is_space(s.last()) {
        assert forall|k: int| s.len() - 1 - (j - 1) <= k < s.len() - 1 implies !is_space(
            s.drop_last()[k],
        ) by {
            assert(s.drop_last()[k] == s[k]);
        }
        lemma_trailing_nonspace_at(s.drop_last(), j - 1);
    }
}

/// Copy of the last whitespace-separated token of `s`.
pub fn last_token_in(s: &[char]) -> (r: Vec<char>)
    ensures
        r@ == last_token(s@),
{
    proof {
        lemma_trailing_nonspace(s@);
    }
    let mut b: usize = s.len();
    while b > 0 && !space_char(s[b - 1])
        invariant
            0 <= b <= s@.len(),
            forall|k: int| b <= k < s@.len() ==> !is_space(s@[k]),
        decreases b,
    {
        b -= 1;
    }
    proof {
        lemma_trailing_nonspace_at(s@, s@.len() - b);
        assert(s@.subrange(b as int, s@.len() as int) =~= last_token(s@));
    }
    let sub = vstd::slice::slice_subrange(s, b, s.len());
    vstd::slice::slice_to_vec(sub)
}

/// Lexicographic order on character sequences, by code point.
pub open spec fn lex_leq(a: Seq<char>, b: Seq<char>) -> bool
    decreases a.len(),
{
    if a.len() == 0 {
        true
    } else if b.len() == 0 {
        false
    } else if (a[0] as u32) < (b[0] as u32) {
        true
    } else if (a[0] as u32) > (b[0] as u32) {
        false
    } else {
        lex_leq(a.drop_first(), b.drop_first())
    }
}

/// Whether `a` is lexicographically at most `b`.
pub fn lex_leq_in(a: &[char], b: &[char]) -> (r: bool)
    ensures
        r == lex_leq(a@, b@),
    decreases a@.len(),
{
    if a.len() == 0 {
        true
    } else if b.len() == 0 {
        false
    } else if (a[0] as u32) < (b[0] as u32) {
        true
    } else if (a[0] as u32) > (b[0] as u32) {
        false
    } else {
        let ra = vstd::slice::slice_subrange(a, 1, a.len());
        let rb = vstd::slice::slice_subrange(b, 1, b.len());
        proof {
            assert(ra@ =~= a@.drop_first());
            assert(rb@ =~= b@.drop_first());
        }
        lex_leq_in(ra, rb)
    }
}

/// `x` placed after every element of `s` that is at most `x`: the
/// insertion step of a stable insertion sort.
pub open spec fn lex_insert(x: Seq<char>, s: Seq<Seq<char>>) -> Seq<Seq<char>>
    decreases s.len(),
{
    if s.len() == 0 {
        seq![x]
    } else if lex_leq(s[0], x) {
        seq![s[0]] + lex_insert(x, s.drop_first())
    } else {
        seq![x] + s
    }
}

pub proof fn lemma_lex_insert_at(x: Seq<char>, s: Seq<Seq<char>>, p: int)
    requires
        0 <= p <= s.len(),
        forall|k: int| 0 <= k < p ==> lex_leq(#[trigger] s[k], x),
        p < s.len() ==> !lex_leq(s[p], x),
    ensures
        lex_insert(x, s) =~= s.take(p) + seq![x] + s.skip(p),
    decreases s.len(),
{
    if s.len() == 0 {
    } else if lex_leq(s[0], x) {
        assert forall|k: int| 0 <= k < p - 1 implies lex_leq(#[trigger] s.drop_first()[k], x) by {
            assert(s.drop_first()[k] == s[k + 1]);
        }
        lemma_lex_insert_at(x, s.drop_first(), p - 1);
        assert(s.drop_first().take(p - 1) =~= s.take(p).drop_first());
        assert(s.drop_first().skip(p - 1) =~= s.skip(p));
    }
}

/// The lines sorted lexicographically, by stable insertion from the left.
pub open spec fn lex_sort(s: Seq<Seq<char>>) -> Seq<Seq<char>>
    decreases s.len(),
{
    if s.len() == 0 {
        Seq::empty()
    } else {
        lex_insert(s.last(), lex_sort(s.drop_last()))
    }
}

/// Sorts character vectors lexicographically (stable).
pub fn lex_sort_in(items: &Vec<Vec<char>>) -> (r: Vec<Vec<char>>)
    ensures
        line_views(r@) == lex_sort(line_views(items@)),
{
    let ghost iv = line_views(items@);
    let mut r: Vec<Vec<char>> = Vec::new();
    let mut i: usize = 0;
    while i < items.len()
        invariant
            0 <= i <= items@.len(),
            iv == line_views(items@),
            line_views(r@) =~= lex_sort(iv.take(i as int)),
        decreases items@.len() - i,
    {
        let ghost rv = line_views(r@);
        let x = vstd::slice::slice_to_vec(items[i].as_slice());
        let mut p: usize = 0;
        while p < r.len() && lex_leq_in(r[p].as_slice(), x.as_slice())
            invariant
                0 <= p <= r@.len(),
                rv == line_views(r@),
                x@ == items@[i as int]@,
                forall|k: int| 0 <= k < p ==> lex_leq(#[trigger] rv[k], x@),
            decreases r@.len() - p,
        {
            proof {
                assert(rv[p as int] == r@[p as int]@);
            }
            p += 1;
        }
        proof {
            assert(p < r@.len() ==> rv[p as int] == r@[p as int]@);
            lemma_lex_insert_at(x@, rv, p as int);
        }
        r.insert(p, x);
        proof {
            assert(line_views(r@) =~= rv.take(p as int) + seq![x@] + rv.skip(p as int));
            assert(iv.take(i + 1 as int).drop_last() =~= iv.take(i as int));
            assert(iv.take(i + 1 as int).last() == iv[i as int]);
            assert(line_views(r@) =~= lex_sort(iv.take(i + 1 as int)));
        }
        i += 1;
    }
    proof {
        assert(iv.take(i as int) =~= iv);
    }
    r
}

/// The elements among the first `n` that differ from their predecessor:
/// adjacent duplicates collapse to their first occurrence.
pub open spec fn dedup_adjacent_upto(s: Seq<Seq<char>>, n: int) -> Seq<Seq<char>>
    decreases n
        when 0 <= n <= s.len()
{
    if n <= 0 {
        Seq::empty()
    } else {
        dedup_adjacent_upto(s, n - 1) + (if n == 1 || s[n - 1] != s[n - 2] {
            seq![s[n - 1]]
        } else {
            Seq::empty()
        })
    }
}

/// The sequence with adjacent duplicates collapsed.
pub open spec fn dedup_adjacent(s: Seq<Seq<char>>) -> Seq<Seq<char>> {
    dedup_adjacent_upto(s, s.len() as int)
}

/// Removes adjacent duplicates, keeping first occurrences.
pub fn dedup_adjacent_in(items: &Vec<Vec<char>>) -> (r: Vec<Vec<char>>)
    ensures
        line_views(r@) == dedup_adjacent(line_views(items@)),
{
    let ghost iv = line_views(items@);
    let mut r: Vec<Vec<char>> = Vec::new();
    let mut i: usize = 0;
    while i < items.len()
        invariant
            0 <= i <= items@.len(),
            iv == line_views(items@),
            line_views(r@) =~= dedup_adjacent_upto(iv, i as int),
        decreases items@.len() - i,
    {
        proof {
            assert(iv[i as int] == items@[i as int]@);
            if i > 0 {
                assert(iv[i - 1 as int] == items@[i - 1 as int]@);
            }
        }
        if i == 0 || !chars_eq(items[i].as_slice(), items[i - 1].as_slice()) {
            let x = vstd::slice::slice_to_vec(items[i].as_slice());
            r.push(x);
        }
        proof {
            assert(dedup_adjacent_upto(iv, i + 1 as int) == dedup_adjacent_upto(iv, i as int) + (
            if i == 0 || iv[i as int] != iv[i - 1 as int] {
                seq![iv[i as int]]
            } else {
                Seq::<Seq<char>>::empty()
            }));
            assert(line_views(r@) =~= dedup_adjacent_upto(iv, i + 1 as int));
        }
        i += 1;
    }
    r
}

/// Number of space/tab/carriage-return characters at the front of `s`.
pub open spec fn leading_ws(s: Seq<char>) -> int
    decreases s.len(),
{
    if s.len() == 0 || !is_space(s[0]) {
        0
    } else {
        1 + leading_ws(s.drop_first())
    }
}

/// Number of whitespace characters at the back of `s`.
pub open spec fn trailing_ws(s: Seq<char>) -> int
    decreases s.len(),
{
    if s.len() == 0 || !is_space(s.last()) {
        0
    } else {
        1 + trailing_ws(s.drop_last())
    }
}

/// `s` with whitespace removed from both ends.
pub open spec fn trim_spaces(s: Seq<char>) -> Seq<char> {
    if leading_ws(s) == s.len() {
        Seq::empty()
    } else {
        s.subrange(leading_ws(s), s.len() - trailing_ws(s))
    }
}

pub proof fn lemma_leading_ws(s: Seq<char>)
    ensures
        0 <= leading_ws(s) <= s.len(),
        forall|k: int| 0 <= k < leading_ws(s) ==> is_space(s[k]),
        leading_ws(s) < s.len() ==> !is_space(s[leading_ws(s)]),
    decreases s.len(),
{
    if s.len() > 0 && is_space(s[0]) {
        lemma_leading_ws(s.drop_first());
        assert forall|k: int| 0 <= k < leading_ws(s) implies is_space(s[k]) by {
            if k > 0 {
                assert(s.drop_first()[k - 1] == s[k]);
            }
        }
    }
}

pub proof fn lemma_leading_ws_at(s: Seq<char>, j: int)
    requires
        0 <= j <= s.len(),
        forall|k: int| 0 <= k < j ==> is_space(s[k]),
        j < s.len() ==> !is_space(s[j]),
    ensures
        leading_ws(s) == j,
    decreases s.len(),
{
    if s.len() > 0 && is_space(s[0]) {
        assert forall|k: int| 0 <= k < j - 1 implies is_space(s.drop_first()[k]) by {
            assert(s.drop_first()[k] == s[k + 1]);
        }
        lemma_leading_ws_at(s.drop_first(), j - 1);
    }
}

pub proof fn lemma_trailing_ws(s: Seq<char>)
    ensures
        0 <= trailing_ws(s) <= s.len(),
        forall|k: int| s.len() - trailing_ws(s) <= k < s.len() ==> is_space(s[k]),
        trailing_ws(s) < s.len() ==> !is_space(s[s.len() - trailing_ws(s) - 1]),
    decreases s.len(),
{
    if s.len() > 0 && is_space(s.last()) {
        lemma_trailing_ws(s.drop_last());
        assert forall|k: int| s.len() - trailing_ws(s) <= k < s.len() implies is_space(s[k]) by {
            if k < s.len() - 1 {
                assert(s.drop_last()[k] == s[k]);
            }
        }
    }
}

pub proof fn lemma_trailing_ws_at(s: Seq<char>, j: int)
    requires
        0 <= j <= s.len(),
        forall|k: int| s.len() - j <= k < s.len() ==> is_space(s[k]),
        j < s.len() ==> !is_space(s[s.len() - j - 1]),
    ensures
        trailing_ws(s) == j,
    decreases s.len(),
{
    if s.len() > 0 && is_space(s.last()) {
        assert forall|k: int| s.len() - 1 - (j - 1) <= k < s.len() - 1 implies is_space(
            s.drop_last()[k],
        ) by {
            assert(s.drop_last()[k] == s[k]);
        }
        lemma_trailing_ws_at(s.drop_last(), j - 1);
    }
}

/// Copy of `s` with leading and trailing whitespace removed.
pub fn trim_in(s: &[char]) -> (r: Vec<char>)
    ensures
        r@ == trim_spaces(s@),
{
    proof {
        lemma_leading_ws(s@);
        lemma_trailing_ws(s@);
    }
    let mut a: usize = 0;
    while a < s.len() && space_char(s[a])
        invariant
            0 <= a <= s@.len(),
            forall|k: int| 0 <= k < a ==> is_space(s@[k]),
        decreases s@.len() - a,
    {
        a += 1;
    }
    proof {
        lemma_leading_ws_at(s@, a as int);
    }
    if a == s.len() {
        proof {
            assert(Seq::<char>::empty() =~= trim_spaces(s@));
        }
        return Vec::new();
    }
    let mut b: usize = s.len();
    while b > 0 && space_char(s[b - 1])
        invariant
            0 <= b <= s@.len(),
            forall|k: int| b <= k < s@.len() ==> is_space(s@[k]),
            b >= a,
            a < s@.len(),
            !is_space(s@[a as int]),
        decreases b,
    {
        proof {
            if b - 1 == a {
                assert(false);
            }
        }
        b -= 1;
    }
    proof {
        lemma_trailing_ws_at(s@, s@.len() - b);
    }
    let sub = vstd::slice::slice_subrange(s, a, b);
    vstd::slice::slice_to_vec(sub)
}

/// `l` with one trailing carriage return removed, if it has one.
pub open spec fn strip_cr(l: Seq<char>) -> Seq<char> {
    if l.len() > 0 && l.last() == '\r' {
        l.drop_last()
    } else {
        l
    }
}

/// The lines of `s`: segments split at `'\n'`, each with a trailing
/// `'\r'` removed; a final line break produces no empty last line.
pub open spec fn spec_lines(s: Seq<char>) -> Seq<Seq<char>>
    decreases s.len(),
{
    if s.len() == 0 {
        Seq::empty()
    } else {
        let i = find_char(s, '\n');
        if 0 <= i && i < s.len() {
            seq![strip_cr(s.take(i))] + spec_lines(s.skip(i + 1))
        } else {
            seq![s]
        }
    }
}

/// The views of a sequence of character vectors.
pub open spec fn line_views(s: Seq<Vec<char>>) -> Seq<Seq<char>> {
    s.map_values(|l: Vec<char>| l@)
}

pub proof fn lemma_line_views_add(a: Seq<Vec<char>>, b: Seq<Vec<char>>)
    ensures
        line_views(a + b) =~= line_views(a) + line_views(b),
{
}

fn split_from(v: &Vec<char>, start: usize) -> (r: Vec<Vec<char>>)
    requires
        start <= v@.len(),
    ensures
        line_views(r@) == spec_lines(v@.skip(start as int)),
    decreases v@.len() - start,
{
    let ghost tail = v@.skip(start as int);
    if start == v.len() {
        proof {
            assert(tail =~= Seq::<char>::empty());
            assert(line_views(Seq::<Vec<char>>::empty()) =~= Seq::<Seq<char>>::empty());
        }
        return Vec::new();
    }
    let sub = vstd::slice::slice_subrange(v.as_slice(), start, v.len());
    proof {
        assert(sub@ =~= tail);
        lemma_find_char(tail, '\n');
    }
    let k = find_char_in(sub, '\n');
    if k == sub.len() {
        let line = vstd::slice::slice_to_vec(sub);
        let mut r: Vec<Vec<char>> = Vec::new();
        r.push(line);
        proof {
            assert(line_views(r@) =~= seq![tail]);
        }
        r
    } else {
        let end: usize = if k > 0 && sub[k - 1] == '\r' {
            k - 1
        } else {
            k
        };
        let line_slice = vstd::slice::slice_subrange(sub, 0, end);
        let line = vstd::slice::slice_to_vec(line_slice);
        proof {
            assert(tail.take(k as int) =~= tail.subrange(0, k as int));
            if k > 0 && tail[k - 1] == '\r' {
                assert(line@ =~= strip_cr(tail.take(k as int)));
            } else {
                assert(line@ =~= strip_cr(tail.take(k as int)));
            }
        }
        let mut rest = split_from(v, start + k + 1);
        let mut r: Vec<Vec<char>> = Vec::new();
        r.push(line);
        proof {
            assert(tail.skip(k + 1) =~= v@.skip(start + k + 1));
            lemma_line_views_add(r@, rest@);
            assert(line_views(r@) =~= seq![strip_cr(tail.take(k as int))]);
        }
        r.append(&mut rest);
        r
    }
}

/// Splits a text buffer into its lines.
pub fn split_lines(text: &str) -> (r: Vec<Vec<char>>)
    ensures
        line_views(r@) == spec_lines(text@),
{
    let v = str_to_chars(text);
    let r = split_from(&v, 0);
    proof {
        assert(v@.skip(0) =~= text@);
    }
    r
}

} // verus!
