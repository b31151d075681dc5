use vstd::prelude::*;

verus! {

/// ASCII decimal digit.
pub open spec fn is_digit(c: char) -> bool {
    48 <= c as int <= 57
}

pub open spec fn digit_val(c: char) -> int {
    c as int - 48
}

/// ASCII whitespace, the `\s` of the marker search.
pub open spec fn is_space_char(c: char) -> bool {
    c == ' ' || c == '\t' || c == '\n' || c == '\r' || c == '\u{b}' || c == '\u{c}'
}

/// First position of `c` at or after `i`, or -1.
pub open spec fn find_char(s: Seq<char>, c: char, i: int) -> int
    recommends
        0 <= i,
    decreases s.len() - i,
{
    if i < 0 || i >= s.len() {
        -1
    } else if s[i] == c {
        i
    } else {
        find_char(s, c, i + 1)
    }
}

pub proof fn lemma_find_char_at(s: Seq<char>, c: char, from: int, j: int)
    requires
        0 <= from <= j < s.len(),
        s[j] == c,
        forall|k: int| from <= k < j ==> s[k] != c,
    ensures
        find_char(s, c, from) == j,
    decreases j - from,
{
    if from < j {
        lemma_find_char_at(s, c, from + 1, j);
    }
}

pub proof fn lemma_find_char_none(s: Seq<char>, c: char, from: int)
    requires
        0 <= from,
        forall|k: int| from <= k < s.len() ==> s[k] != c,
    ensures
        find_char(s, c, from) == -1,
    decreases s.len() - from,
{
    if from < s.len() {
        lemma_find_char_none(s, c, from + 1);
    }
}

/// First position at or after `i` that does not hold a digit (the length
/// where all the rest are digits).
pub open spec fn digits_end(s: Seq<char>, i: int) -> int
    recommends
        0 <= i,
    decreases s.len() - i,
{
    if i < 0 || i >= s.len() {
        i
    } else if !is_digit(s[i]) {
        i
    } else {
        digits_end(s, i + 1)
    }
}

pub proof fn lemma_digits_end_at(s: Seq<char>, from: int, e: int)
    requires
        0 <= from <= e <= s.len(),
        forall|k: int| from <= k < e ==> is_digit(s[k]),
        e == s.len() || !is_digit(s[e]),
    ensures
        digits_end(s, from) == e,
    decreases e - from,
{
    if from < e {
        lemma_digits_end_at(s, from + 1, e);
    }
}

/// Value of the digits in `s[from .. to]`, most significant first.
pub open spec fn digits_val(s: Seq<char>, from: int, to: int) -> int
    decreases to - from,
{
    if from >= to {
        0
    } else {
        digits_val(s, from, to - 1) * 10 + digit_val(s[to - 1])
    }
}

/// A digit string's value stays under one more than its width in tens.
pub proof fn lemma_digits_val_bound(s: Seq<char>, from: int, to: int)
    requires
        0 <= from,
        to <= s.len(),
        forall|k: int| from <= k < to ==> is_digit(s[k]),
    ensures
        0 <= digits_val(s, from, to),
        to - from <= 10 ==> digits_val(s, from, to) < 10_000_000_000,
    decreases to - from,
{
    if from < to {
        lemma_digits_val_bound(s, from, to - 1);
        if to - from <= 10 {
            lemma_digits_val_width(s, from, to);
            lemma_pow10_monotone(to - from, 10);
            assert(pow10(1) == 10) by {
                assert(pow10(0) == 1);
            }
            assert(pow10(2) == 100);
            assert(pow10(3) == 1000);
            assert(pow10(4) == 10000);
            assert(pow10(5) == 100000);
            assert(pow10(6) == 1000000);
            assert(pow10(7) == 10000000);
            assert(pow10(8) == 100000000);
            assert(pow10(9) == 1000000000);
            assert(pow10(10) == 10_000_000_000);
        }
    }
}

/// Powers of ten are at least one and grow with the exponent.
pub proof fn lemma_pow10_monotone(a: int, b: int)
    requires
        a <= b,
    ensures
        1 <= pow10(a) <= pow10(b),
    decreases b - a,
{
    if a < b {
        lemma_pow10_monotone(a, b - 1);
    } else {
        lemma_pow10_pos(a);
    }
}

proof fn lemma_pow10_pos(a: int)
    ensures
        pow10(a) >= 1,
    decreases a,
{
    if a > 0 {
        lemma_pow10_pos(a - 1);
    }
}

/// Powers of ten multiply by adding exponents.
pub proof fn lemma_pow10_mul(a: int, b: int)
    requires
        0 <= a,
        0 <= b,
    ensures
        pow10(a) * pow10(b) == pow10(a + b),
    decreases a,
{
    if a == 0 {
        assert(pow10(0) * pow10(b) == pow10(b)) by (nonlinear_arith)
            requires
                pow10(0) == 1,
        ;
    } else {
        lemma_pow10_mul(a - 1, b);
        assert(pow10(a) * pow10(b) == 10 * (pow10(a - 1) * pow10(b))) by (nonlinear_arith)
            requires
                pow10(a) == 10 * pow10(a - 1),
        ;
    }
}

/// digits_val < 10^(to-from), stated for widths up to ten.
pub proof fn lemma_digits_val_width(s: Seq<char>, from: int, to: int)
    requires
        0 <= from <= to <= s.len(),
        to - from <= 10,
        forall|k: int| from <= k < to ==> is_digit(s[k]),
    ensures
        0 <= digits_val(s, from, to) < pow10(to - from),
    decreases to - from,
{
    if from < to {
        lemma_digits_val_width(s, from, to - 1);
        assert(digits_val(s, from, to - 1) * 10 + digit_val(s[to - 1]) < pow10(to - from))
            by (nonlinear_arith)
            requires
                digits_val(s, from, to - 1) < pow10(to - from - 1),
                0 <= digits_val(s, from, to - 1),
                0 <= digit_val(s[to - 1]) <= 9,
                pow10(to - from) == 10 * pow10(to - from - 1),
        ;
    }
}

/// Powers of ten.
pub open spec fn pow10(k: int) -> int
    decreases k,
{
    if k <= 0 {
        1
    } else {
        10 * pow10(k - 1)
    }
}

/// `pat` occurs in `s` at position `i`.
pub open spec fn match_at(s: Seq<char>, pat: Seq<char>, i: int) -> bool {
    0 <= i && i + pat.len() <= s.len() && s.subrange(i, i + pat.len()) == pat
}

/// First position at or after `i`, preceded by whitespace, where `pat`
/// occurs; -1 where there is none.
pub open spec fn find_marker_from(s: Seq<char>, pat: Seq<char>, i: int) -> int
    recommends
        1 <= i,
    decreases s.len() - i,
{
    if i < 1 || pat.len() < 1 || i + pat.len() > s.len() {
        -1
    } else if is_space_char(s[i - 1]) && match_at(s, pat, i) {
        i
    } else {
        find_marker_from(s, pat, i + 1)
    }
}

pub proof fn lemma_find_marker_at(s: Seq<char>, pat: Seq<char>, from: int, j: int)
    requires
        pat.len() >= 1,
        1 <= from <= j,
        j + pat.len() <= s.len(),
        is_space_char(s[j - 1]) && match_at(s, pat, j),
        forall|k: int| from <= k < j ==> !(is_space_char(s[k - 1]) && match_at(s, pat, k)),
    ensures
        find_marker_from(s, pat, from) == j,
    decreases j - from,
{
    if from < j {
        lemma_find_marker_at(s, pat, from + 1, j);
    }
}

pub proof fn lemma_find_marker_none(s: Seq<char>, pat: Seq<char>, from: int)
    requires
        1 <= from,
        pat.len() >= 1,
        forall|k: int| from <= k < s.len() ==> !(is_space_char(s[k - 1]) && match_at(s, pat, k)),
    ensures
        find_marker_from(s, pat, from) == -1,
    decreases s.len() - from,
{
    if from + pat.len() <= s.len() {
        lemma_find_marker_none(s, pat, from + 1);
    }
}

/// First position at or after `i` where `pat` occurs; -1 where none.
pub open spec fn find_sub_from(s: Seq<char>, pat: Seq<char>, i: int) -> int
    recommends
        0 <= i,
    decreases s.len() - i,
{
    if i < 0 || pat.len() < 1 || i + pat.len() > s.len() {
        -1
    } else if match_at(s, pat, i) {
        i
    } else {
        find_sub_from(s, pat, i + 1)
    }
}

pub proof fn lemma_find_sub_at(s: Seq<char>, pat: Seq<char>, from: int, j: int)
    requires
        pat.len() >= 1,
        0 <= from <= j,
        j + pat.len() <= s.len(),
        match_at(s, pat, j),
        forall|k: int| from <= k < j ==> !match_at(s, pat, k),
    ensures
        find_sub_from(s, pat, from) == j,
    decreases j - from,
{
    if from < j {
        lemma_find_sub_at(s, pat, from + 1, j);
    }
}

pub proof fn lemma_find_sub_none(s: Seq<char>, pat: Seq<char>, from: int)
    requires
        0 <= from,
        pat.len() >= 1,
        forall|k: int| from <= k < s.len() ==> !match_at(s, pat, k),
    ensures
        find_sub_from(s, pat, from) == -1,
    decreases s.len() - from,
{
    if from + pat.len() <= s.len() {
        lemma_find_sub_none(s, pat, from + 1);
    }
}

/// First occurrence of `pat` at or after `from`.
pub fn vec_find_sub(hay: &Vec<char>, pat: &Vec<char>, from: usize) -> (r: Option<usize>)
    requires
        pat@.len() >= 1,
        from <= hay@.len(),
    ensures
        match r {
            Some(j) => from <= j && j + pat@.len() <= hay@.len() && find_sub_from(
                hay@,
                pat@,
                from as int,
            ) == j,
            None => find_sub_from(hay@, pat@, from as int) == -1,
        },
{
    let n = hay.len();
    let m = pat.len();
    if m > n || from > n - m {
        proof {
            assert forall|k: int| from <= k < hay@.len() implies !match_at(hay@, pat@, k) by {
                assert(k + pat@.len() > hay@.len());
            }
            lemma_find_sub_none(hay@, pat@, from as int);
        }
        return None;
    }
    let mut j: usize = from;
    while j <= n - m
        invariant
            n == hay@.len(),
            1 <= m == pat@.len(),
            m <= n,
            from <= j <= n - m + 1,
            forall|k: int| from <= k < j ==> !match_at(hay@, pat@, k),
        decreases n - j,
    {
        if vec_match_at(hay, pat, j) {
            proof {
                lemma_find_sub_at(hay@, pat@, from as int, j as int);
            }
            return Some(j);
        }
        j = j + 1;
    }
    proof {
        assert forall|k: int| from <= k < hay@.len() implies !match_at(hay@, pat@, k) by {
            if k >= j {
                assert(k + pat@.len() > hay@.len());
            }
        }
        lemma_find_sub_none(hay@, pat@, from as int);
    }
    None
}

/// First position of `c` in the vector at or after `from`.
pub fn vec_find_char(v: &Vec<char>, c: char, from: usize) -> (r: Option<usize>)
    requires
        from <= v@.len(),
    ensures
        match r {
            Some(j) => from <= j < v@.len() && find_char(v@, c, from as int) == j,
            None => find_char(v@, c, from as int) == -1,
        },
{
    let n = v.len();
    let mut j: usize = from;
    while j < n
        invariant
            n == v@.len(),
            from <= j <= n,
            forall|k: int| from <= k < j ==> v@[k] != c,
        decreases n - j,
    {
        if v[j] == c {
            proof {
                lemma_find_char_at(v@, c, from as int, j as int);
            }
            return Some(j);
        }
        j = j + 1;
    }
    proof {
        lemma_find_char_none(v@, c, from as int);
    }
    None
}

/// Whether `c` is an ASCII digit.
pub fn char_is_digit(c: char) -> (r: bool)
    ensures
        r == is_digit(c),
{
    let u = c as u32;
    48 <= u && u <= 57
}

/// First non-digit position at or after `from`.
pub fn vec_digits_end(v: &Vec<char>, from: usize) -> (r: usize)
    requires
        from <= v@.len(),
    ensures
        from <= r <= v@.len(),
        digits_end(v@, from as int) == r,
        forall|k: int| from <= k < r ==> is_digit(v@[k]),
        r < v@.len() ==> !is_digit(v@[r as int]),
{
    let n = v.len();
    let mut j: usize = from;
    while j < n && char_is_digit(v[j])
        invariant
            n == v@.len(),
            from <= j <= n,
            forall|k: int| from <= k < j ==> is_digit(v@[k]),
        decreases n - j,
    {
        j = j + 1;
    }
    proof {
        lemma_digits_end_at(v@, from as int, j as int);
    }
    j
}

/// Value of the digits in `v[from .. to]`; the width is capped so the
/// value fits comfortably.
pub fn vec_digits_val(v: &Vec<char>, from: usize, to: usize) -> (r: u64)
    requires
        from <= to <= v@.len(),
        to - from <= 10,
        forall|k: int| from <= k < to ==> is_digit(v@[k]),
    ensures
        r as int == digits_val(v@, from as int, to as int),
        r < 10_000_000_000,
{
    proof {
        lemma_digits_val_bound(v@, from as int, to as int);
    }
    let mut acc: u64 = 0;
    let mut j: usize = from;
    while j < to
        invariant
            from <= j <= to <= v@.len(),
            to - from <= 10,
            forall|k: int| from <= k < to ==> is_digit(v@[k]),
            acc as int == digits_val(v@, from as int, j as int),
            acc < 10_000_000_000,
        decreases to - j,
    {
        proof {
            lemma_digits_val_bound(v@, from as int, j + 1);
        }
        let d = (v[j] as u32 - 48) as u64;
        acc = acc * 10 + d;
        j = j + 1;
    }
    acc
}

/// Whether `pat` occurs in `hay` at position `i`.
pub fn vec_match_at(hay: &Vec<char>, pat: &Vec<char>, i: usize) -> (r: bool)
    ensures
        r == match_at(hay@, pat@, i as int),
{
    let m = pat.len();
    let n = hay.len();
    if i > n || m > n - i {
        return false;
    }
    let mut k: usize = 0;
    while k < m
        invariant
            m == pat@.len(),
            n == hay@.len(),
            i + m <= n,
            0 <= k <= m,
            forall|q: int| 0 <= q < k ==> hay@[i + q] == pat@[q],
        decreases m - k,
    {
        if hay[i + k] != pat[k] {
            return false;
        }
        k = k + 1;
    }
    proof {
        assert(hay@.subrange(i as int, i + m) =~= pat@);
    }
    true
}

/// Whether `c` is ASCII whitespace.
pub fn char_is_space(c: char) -> (r: bool)
    ensures
        r == is_space_char(c),
{
    c == ' ' || c == '\t' || c == '\n' || c == '\r' || c == '\u{b}' || c == '\u{c}'
}

/// First whitespace-preceded occurrence of `pat` at or after position 1.
pub fn vec_find_marker(hay: &Vec<char>, pat: &Vec<char>) -> (r: Option<usize>)
    requires
        pat@.len() >= 1,
    ensures
        match r {
            Some(j) => 1 <= j && j + pat@.len() <= hay@.len() && find_marker_from(
                hay@,
                pat@,
                1,
            ) == j,
            None => find_marker_from(hay@, pat@, 1) == -1,
        },
{
    let n = hay.len();
    let m = pat.len();
    if n < 1 || m > n - 1 {
        proof {
            lemma_find_marker_none(hay@, pat@, 1);
        }
        return None;
    }
    let mut j: usize = 1;
    while j <= n - m
        invariant
            n == hay@.len(),
            1 <= m == pat@.len(),
            m <= n - 1,
            1 <= j <= n - m + 1,
            forall|k: int|
                1 <= k < j ==> !(is_space_char(hay@[k - 1]) && match_at(hay@, pat@, k)),
        decreases n - j,
    {
        if char_is_space(hay[j - 1]) && vec_match_at(hay, pat, j) {
            proof {
                lemma_find_marker_at(hay@, pat@, 1, j as int);
            }
            return Some(j);
        }
        j = j + 1;
    }
    proof {
        assert forall|k: int|
            1 <= k < hay@.len() implies !(is_space_char(hay@[k - 1]) && match_at(
            hay@,
            pat@,
            k,
        )) by {
            if k >= j {
                assert(k + pat@.len() > hay@.len());
            }
        }
        lemma_find_marker_none(hay@, pat@, 1);
    }
    None
}

} // verus!
