//! Character-sequence utilities shared by the version parser, the property
//! scanner and the path rules: first-occurrence search, decimal digit runs,
//! substring containment, whitespace trimming and line splitting.

use vstd::prelude::*;

verus! {

/// Index of the first occurrence of `c` in `s`, or -1 if `c` does not occur.
pub open spec fn find_char(s: Seq<char>, c: char) -> int
    decreases s.len(),
{
    if s.len() == 0 {
        -1
    } else if s[0] == c {
        0
    } else if find_char(s.subrange(1, s.len() as int), c) < 0 {
        -1
    } else {
        1 + find_char(s.subrange(1, s.len() as int), c)
    }
}

pub proof fn lemma_find_char(s: Seq<char>, c: char)
    ensures
        -1 <= find_char(s, c) < s.len(),
        find_char(s, c) >= 0 ==> s[find_char(s, c)] == c,
        forall|j: int| 0 <= j < find_char(s, c) ==> s[j] != c,
        find_char(s, c) == -1 ==> forall|j: int| 0 <= j < s.len() ==> s[j] != c,
    decreases s.len(),
{
    if s.len() == 0 {
    } else if s[0] == c {
    } else {
        let t = s.subrange(1, s.len() as int);
        lemma_find_char(t, c);
        assert forall|j: int| 0 <= j < find_char(s, c) implies s[j] != c by {
            if j > 0 {
                assert(s[j] == t[j - 1]);
            }
        }
        if find_char(s, c) == -1 {
            assert forall|j: int| 0 <= j < s.len() implies s[j] != c by {
                if j > 0 {
                    assert(s[j] == t[j - 1]);
                }
            }
        }
    }
}

/// The first occurrence determines `find_char` uniquely.
pub proof fn lemma_find_char_at(s: Seq<char>, c: char, i: int)
    requires
        0 <= i < s.len(),
        s[i] == c,
        forall|j: int| 0 <= j < i ==> s[j] != c,
    ensures
        find_char(s, c) == i,
{
    lemma_find_char(s, c);
}

pub proof fn lemma_find_char_none(s: Seq<char>, c: char)
    requires
        forall|j: int| 0 <= j < s.len() ==> s[j] != c,
    ensures
        find_char(s, c) == -1,
{
    lemma_find_char(s, c);
}

/// First index `i >= from` with `s@[i] == c`, if any.
pub fn find_from(s: &str, from: usize, c: char) -> (r: Option<usize>)
    requires
        from <= s@.len(),
    ensures
        match r {
            Some(i) => from <= i < s@.len() && s@[i as int] == c && (forall|j: int|
                from <= j < i ==> s@[j] != c),
            None => forall|j: int| from <= j < s@.len() ==> s@[j] != c,
        },
{
    let n: usize = s.unicode_len();
    let mut i: usize = from;
    while i < n
        invariant
            from <= i <= n,
            n == s@.len(),
            forall|j: int| from <= j < i ==> s@[j] != c,
        decreases n - i,
    {
        if s.get_char(i) == c {
            return Some(i);
        }
        i = i + 1;
    }
    None
}

pub open spec fn is_digit(c: char) -> bool {
    '0' <= c && c <= '9'
}

pub open spec fn digit_val(c: char) -> nat {
    (c as int - '0' as int) as nat
}

pub open spec fn all_digits(s: Seq<char>) -> bool {
    forall|i: int| 0 <= i < s.len() ==> is_digit(s[i])
}

/// A non-empty run of decimal digits.
pub open spec fn is_number(s: Seq<char>) -> bool {
    s.len() > 0 && all_digits(s)
}

/// Value of a digit run read in base ten.
pub open spec fn digits_val(s: Seq<char>) -> nat
    decreases s.len(),
{
    if s.len() == 0 {
        0
    } else {
        digits_val(s.drop_last()) * 10 + digit_val(s.last())
    }
}

/// Extending a digit run on the right never lowers its value.
pub proof fn lemma_digits_val_prefix(s: Seq<char>, k: int)
    requires
        0 <= k <= s.len(),
    ensures
        digits_val(s.subrange(0, k)) <= digits_val(s),
    decreases s.len() - k,
{
    if k == s.len() {
        assert(s.subrange(0, k) =~= s);
    } else {
        assert(s.subrange(0, k + 1).drop_last() =~= s.subrange(0, k));
        assert(s.subrange(0, k + 1).last() == s[k]);
        lemma_digits_val_prefix(s, k + 1);
    }
}

/// Parses `s` as a decimal number of value at most `max`. Returns `None` on
/// an empty string, a non-digit character, or a value above `max`.
pub fn parse_number(s: &str, max: u16) -> (r: Option<u16>)
    ensures
        match r {
            Some(v) => is_number(s@) && digits_val(s@) <= max && v == digits_val(s@),
            None => !(is_number(s@) && digits_val(s@) <= max),
        },
{
    let n: usize = s.unicode_len();
    if n == 0 {
        return None;
    }
    let mut v: u16 = 0;
    let mut i: usize = 0;
    while i < n
        invariant
            0 < n == s@.len(),
            i <= n,
            all_digits(s@.subrange(0, i as int)),
            v == digits_val(s@.subrange(0, i as int)),
            v <= max,
        decreases n - i,
    {
        let c = s.get_char(i);
        if !('0' <= c && c <= '9') {
            assert(!all_digits(s@));
            return None;
        }
        let d: u16 = (c as u32 - 48) as u16;
        let w: u32 = v as u32 * 10 + d as u32;
        proof {
            assert(s@.subrange(0, i as int + 1).drop_last() =~= s@.subrange(0, i as int));
            assert(s@.subrange(0, i as int + 1).last() == s@[i as int]);
        }
        if w > max as u32 {
            proof {
                lemma_digits_val_prefix(s@, i as int + 1);
            }
            return None;
        }
        v = w as u16;
        i = i + 1;
    }
    proof {
        assert(s@.subrange(0, n as int) =~= s@);
    }
    Some(v)
}

/// `p` occurs as a contiguous run inside `s`.
pub open spec fn contains_seq(s: Seq<char>, p: Seq<char>) -> bool {
    exists|i: int|
        0 <= i && i + p.len() <= s.len() && #[trigger] s.subrange(i, i + p.len() as int) == p
}

pub fn contains_sub(s: &str, p: &str) -> (r: bool)
    ensures
        r == contains_seq(s@, p@),
{
    let n: usize = s.unicode_len();
    let m: usize = p.unicode_len();
    if m > n {
        assert(!contains_seq(s@, p@));
        return false;
    }
    let mut i: usize = 0;
    while i <= n - m
        invariant
            m <= n,
            n == s@.len(),
            m == p@.len(),
            i <= n - m + 1,
            forall|k: int| 0 <= k < i ==> #[trigger] s@.subrange(k, k + p@.len() as int) != p@,
        decreases n - i,
    {
        let mut j: usize = 0;
        let mut matched: bool = true;
        while j < m
            invariant
                n == s@.len(),
                m == p@.len(),
                i + m <= n,
                j <= m,
                matched ==> forall|l: int| 0 <= l < j ==> s@[i + l] == p@[l],
                !matched ==> m > 0 && s@.subrange(i as int, i + p@.len() as int) != p@,
            decreases m - j,
        {
            if s.get_char(i + j) != p.get_char(j) {
                proof {
                    assert(s@.subrange(i as int, i + p@.len() as int)[j as int] == s@[i + j]);
                }
                matched = false;
                j = m;
            } else {
                j = j + 1;
            }
        }
        if matched {
            assert(s@.subrange(i as int, i + p@.len() as int) =~= p@);
            return true;
        }
        i = i + 1;
    }
    assert forall|k: int|
        0 <= k && k + p@.len() <= s@.len() implies #[trigger] s@.subrange(k, k + p@.len() as int)
        != p@ by {
        assert(k < i);
    }
    false
}

pub open spec fn is_space(c: char) -> bool {
    c == ' ' || c == '\t' || c == '\r' || c == '\n' || c == '\u{b}' || c == '\u{c}'
}

pub fn is_space_exec(c: char) -> (r: bool)
    ensures
        r == is_space(c),
{
    c == ' ' || c == '\t' || c == '\r' || c == '\n' || c == '\u{b}' || c == '\u{c}'
}

pub open spec fn trim_start_spec(s: Seq<char>) -> Seq<char>
    decreases s.len(),
{
    if s.len() > 0 && is_space(s[0]) {
        trim_start_spec(s.drop_first())
    } else {
        s
    }
}

pub open spec fn trim_end_spec(s: Seq<char>) -> Seq<char>
    decreases s.len(),
{
    if s.len() > 0 && is_space(s.last()) {
        trim_end_spec(s.drop_last())
    } else {
        s
    }
}

/// `s` with leading and trailing whitespace removed.
pub open spec fn trim_spec(s: Seq<char>) -> Seq<char> {
    trim_end_spec(trim_start_spec(s))
}

pub fn trim(s: &str) -> (r: &str)
    ensures
        r@ == trim_spec(s@),
{
    let n: usize = s.unicode_len();
    proof {
        assert(s@.subrange(0, n as int) =~= s@);
    }
    let mut b: usize = 0;
    loop
        invariant
            b <= n,
            n == s@.len(),
            trim_start_spec(s@) == trim_start_spec(s@.subrange(b as int, n as int)),
        ensures
            b <= n,
            trim_start_spec(s@) == s@.subrange(b as int, n as int),
        decreases n - b,
    {
        if b >= n {
            break;
        }
        if !is_space_exec(s.get_char(b)) {
            break;
        }
        proof {
            let t = s@.subrange(b as int, n as int);
            assert(t.drop_first() =~= s@.subrange(b as int + 1, n as int));
        }
        b = b + 1;
    }
    let mut e: usize = n;
    loop
        invariant
            b <= e <= n,
            n == s@.len(),
            trim_start_spec(s@) == s@.subrange(b as int, n as int),
            trim_end_spec(s@.subrange(b as int, n as int)) == trim_end_spec(
                s@.subrange(b as int, e as int),
            ),
        ensures
            b <= e <= n,
            trim_spec(s@) == s@.subrange(b as int, e as int),
        decreases e,
    {
        if e <= b {
            break;
        }
        if !is_space_exec(s.get_char(e - 1)) {
            break;
        }
        proof {
            let t = s@.subrange(b as int, e as int);
            assert(t.last() == s@[e - 1]);
            assert(t.drop_last() =~= s@.subrange(b as int, e as int - 1));
        }
        e = e - 1;
    }
    s.substring_char(b, e)
}

/// The segments of `s` between occurrences of `c`, in order. A string with no
/// `c` is one segment; a trailing `c` contributes a final empty segment.
pub open spec fn split_char(s: Seq<char>, c: char) -> Seq<Seq<char>>
    decreases s.len(),
{
    let f = find_char(s, c);
    if 0 <= f < s.len() {
        seq![s.subrange(0, f)] + split_char(s.subrange(f + 1, s.len() as int), c)
    } else {
        seq![s]
    }
}

/// Everything before the first occurrence of `c`; meaningful only when `c`
/// occurs in `s`.
pub open spec fn head_field(s: Seq<char>, c: char) -> Seq<char> {
    s.subrange(0, find_char(s, c))
}

/// The segment between the first occurrence of `c` and the next one (or the
/// end of `s`); meaningful only when `c` occurs in `s`.
pub open spec fn second_field(s: Seq<char>, c: char) -> Seq<char> {
    let rest = s.subrange(find_char(s, c) + 1, s.len() as int);
    if find_char(rest, c) < 0 {
        rest
    } else {
        rest.subrange(0, find_char(rest, c))
    }
}

/// Splits `s` at the first occurrence of `c` into the head field and the
/// second field, or `None` when `c` does not occur.
pub fn split_two<'a>(s: &'a str, c: char) -> (r: Option<(&'a str, &'a str)>)
    ensures
        match r {
            Some(p) => find_char(s@, c) >= 0 && p.0@ == head_field(s@, c) && p.1@ == second_field(
                s@,
                c,
            ),
            None => find_char(s@, c) == -1,
        },
{
    let n: usize = s.unicode_len();
    let f: usize = match find_from(s, 0, c) {
        None => {
            proof {
                lemma_find_char_none(s@, c);
            }
            return None;
        },
        Some(f) => f,
    };
    proof {
        lemma_find_char_at(s@, c, f as int);
    }
    let head = s.substring_char(0, f);
    match find_from(s, f + 1, c) {
        None => {
            proof {
                let rest = s@.subrange(f as int + 1, n as int);
                assert forall|k: int| 0 <= k < rest.len() implies rest[k] != c by {
                    assert(rest[k] == s@[f + 1 + k]);
                }
                lemma_find_char_none(rest, c);
            }
            let second = s.substring_char(f + 1, n);
            Some((head, second))
        },
        Some(g) => {
            proof {
                let rest = s@.subrange(f as int + 1, n as int);
                assert(rest[g - f - 1] == s@[g as int]);
                assert forall|k: int| 0 <= k < g - f - 1 implies rest[k] != c by {
                    assert(rest[k] == s@[f + 1 + k]);
                }
                lemma_find_char_at(rest, c, g - f - 1);
                assert(rest.subrange(0, g - f - 1) =~= s@.subrange(f as int + 1, g as int));
            }
            let second = s.substring_char(f + 1, g);
            Some((head, second))
        },
    }
}

/// `p` occurs in `s` starting exactly at index `i`.
pub fn matches_at(s: &str, i: usize, p: &str) -> (r: bool)
    ensures
        r == (i + p@.len() <= s@.len() && s@.subrange(i as int, i + p@.len() as int) == p@),
{
    let n: usize = s.unicode_len();
    let m: usize = p.unicode_len();
    if i > n || m > n - i {
        return false;
    }
    let mut j: usize = 0;
    while j < m
        invariant
            n == s@.len(),
            m == p@.len(),
            i + m <= n,
            j <= m,
            forall|l: int| 0 <= l < j ==> s@[i + l] == p@[l],
        decreases m - j,
    {
        if s.get_char(i + j) != p.get_char(j) {
            proof {
                assert(s@.subrange(i as int, i + p@.len() as int)[j as int] == s@[i + j]);
            }
            return false;
        }
        j = j + 1;
    }
    assert(s@.subrange(i as int, i + p@.len() as int) =~= p@);
    true
}

/// ASCII lower-casing of one character; other characters are unchanged.
pub open spec fn ascii_lower(c: char) -> char {
    if 'A' <= c && c <= 'Z' {
        ((c as u8) + 32) as char
    } else {
        c
    }
}

pub fn ascii_lower_exec(c: char) -> (r: char)
    ensures
        r == ascii_lower(c),
{
    if 'A' <= c && c <= 'Z' {
        ((c as u8) + 32) as char
    } else {
        c
    }
}

/// `s` mapped to its ASCII lowercase form.
pub open spec fn lower_seq(s: Seq<char>) -> Seq<char> {
    s.map_values(|c: char| ascii_lower(c))
}

/// The lowercase form of `p` occurs inside the lowercase form of `s`.
pub open spec fn contains_ci(s: Seq<char>, p: Seq<char>) -> bool {
    contains_seq(lower_seq(s), lower_seq(p))
}

pub fn contains_ci_exec(s: &str, p: &str) -> (r: bool)
    ensures
        r == contains_ci(s@, p@),
{
    let n: usize = s.unicode_len();
    let m: usize = p.unicode_len();
    let ghost ls = lower_seq(s@);
    let ghost lp = lower_seq(p@);
    if m > n {
        assert(!contains_seq(ls, lp));
        return false;
    }
    let mut i: usize = 0;
    while i <= n - m
        invariant
            m <= n,
            n == s@.len(),
            m == p@.len(),
            ls == lower_seq(s@),
            lp == lower_seq(p@),
            i <= n - m + 1,
            forall|k: int| 0 <= k < i ==> #[trigger] ls.subrange(k, k + lp.len() as int) != lp,
        decreases n - i,
    {
        let mut j: usize = 0;
        let mut matched: bool = true;
        while j < m
            invariant
                n == s@.len(),
                m == p@.len(),
                ls == lower_seq(s@),
                lp == lower_seq(p@),
                i + m <= n,
                j <= m,
                matched ==> forall|l: int| 0 <= l < j ==> ls[i + l] == lp[l],
                !matched ==> m > 0 && ls.subrange(i as int, i + lp.len() as int) != lp,
            decreases m - j,
        {
            if ascii_lower_exec(s.get_char(i + j)) != ascii_lower_exec(p.get_char(j)) {
                proof {
                    assert(ls.subrange(i as int, i + lp.len() as int)[j as int] == ls[i + j]);
                }
                matched = false;
                j = m;
            } else {
                j = j + 1;
            }
        }
        if matched {
            assert(ls.subrange(i as int, i + lp.len() as int) =~= lp);
            return true;
        }
        i = i + 1;
    }
    assert forall|k: int|
        0 <= k && k + lp.len() <= ls.len() implies #[trigger] ls.subrange(k, k + lp.len() as int)
        != lp by {
        assert(k < i);
    }
    false
}

pub proof fn lemma_split_char_len(s: Seq<char>, c: char)
    ensures
        split_char(s, c).len() >= 1,
    decreases s.len(),
{
    lemma_find_char(s, c);
    let f = find_char(s, c);
    if 0 <= f < s.len() {
        lemma_split_char_len(s.subrange(f + 1, s.len() as int), c);
    }
}

} // verus!
