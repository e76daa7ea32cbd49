//! Parsing a page-range expression such as `"1-5"` or `"1..5"` into the
//! inclusive interval of 1-based page numbers it denotes.
//!
//! The grammar accepts exactly one interval: the expression is trimmed,
//! split on `".."` if present and otherwise on `"-"`, and each side must
//! be a positive decimal number. The whole outcome, including which
//! error each malformed input draws, is pinned down by
//! [`spec_parse_range`].

use vstd::prelude::*;

verus! {

use crate::text::spec_digit_char;
use crate::text::spec_udec;
use crate::text::str_chars;
use vstd::string::StringExecFns;
use vstd::arithmetic::div_mod::lemma_fundamental_div_mod;
use vstd::arithmetic::div_mod::lemma_mod_division_less_than_divisor;

/// Why a page-range expression was rejected.
#[derive(Debug, Clone, Copy, PartialEq, Eq, Structural)]
pub enum PageRangeError {
    /// No separator, more than two parts, or an empty part.
    InvalidFormat,
    /// A part is not a number, does not fit, or is zero.
    InvalidPageNumber,
    /// The start page exceeds the end page.
    EmptyRange,
}

impl PageRangeError {
    /// The description printed when the expression is rejected.
    pub fn message(&self) -> (r: String)
        ensures
            self is InvalidFormat ==> r@ == "Invalid page range format. Use 1-5 or 1..5."@,
            self is InvalidPageNumber ==> r@
                == "Invalid page number. Page numbers must be greater than 0."@,
            self is EmptyRange ==> r@
                == "Invalid page range. The start page must not be greater than the end page."@,
    {
        match self {
            PageRangeError::InvalidFormat => String::from_str(
                "Invalid page range format. Use 1-5 or 1..5.",
            ),
            PageRangeError::InvalidPageNumber => String::from_str(
                "Invalid page number. Page numbers must be greater than 0.",
            ),
            PageRangeError::EmptyRange => String::from_str(
                "Invalid page range. The start page must not be greater than the end page.",
            ),
        }
    }
}

/// Whitespace trimmed from the expression and from each part.
pub open spec fn is_space_char(c: char) -> bool {
    c == ' ' || c == '\t' || c == '\n' || c == '\r'
}

/// A decimal digit.
pub open spec fn is_digit_char(c: char) -> bool {
    c == '0' || c == '1' || c == '2' || c == '3' || c == '4' || c == '5' || c == '6' || c == '7'
        || c == '8' || c == '9'
}

/// The value of a decimal digit character (zero on anything else).
pub open spec fn digit_val(c: char) -> int {
    if c == '1' {
        1
    } else if c == '2' {
        2
    } else if c == '3' {
        3
    } else if c == '4' {
        4
    } else if c == '5' {
        5
    } else if c == '6' {
        6
    } else if c == '7' {
        7
    } else if c == '8' {
        8
    } else if c == '9' {
        9
    } else {
        0
    }
}

pub open spec fn trim_front(s: Seq<char>) -> Seq<char>
    decreases s.len(),
{
    if s.len() > 0 && is_space_char(s.first()) {
        trim_front(s.drop_first())
    } else {
        s
    }
}

pub open spec fn trim_back(s: Seq<char>) -> Seq<char>
    decreases s.len(),
{
    if s.len() > 0 && is_space_char(s.last()) {
        trim_back(s.drop_last())
    } else {
        s
    }
}

/// `s` with leading and trailing whitespace removed.
pub open spec fn trim_spec(s: Seq<char>) -> Seq<char> {
    trim_back(trim_front(s))
}

/// The two-character separator `".."` starts at position `i`.
pub open spec fn has_dotdot_at(s: Seq<char>, i: int) -> bool {
    s[i] == '.' && s[i + 1] == '.'
}

/// Position of the leftmost `".."`, or -1 if there is none.
pub open spec fn find_dotdot(s: Seq<char>) -> int
    decreases s.len(),
{
    if s.len() < 2 {
        -1
    } else if s.first() == '.' && s[1] == '.' {
        0
    } else {
        let r = find_dotdot(s.drop_first());
        if r < 0 {
            -1
        } else {
            r + 1
        }
    }
}

/// Position of the leftmost occurrence of `c`, or -1 if there is none.
pub open spec fn find_char(s: Seq<char>, c: char) -> int
    decreases s.len(),
{
    if s.len() == 0 {
        -1
    } else if s.first() == c {
        0
    } else {
        let r = find_char(s.drop_first(), c);
        if r < 0 {
            -1
        } else {
            r + 1
        }
    }
}

/// The two substrings around the separator, or `None` when no separator
/// occurs or the split would give more than two parts. `".."` is looked
/// for first, then `"-"`, as the grammar demands.
pub open spec fn split_parts(s: Seq<char>) -> Option<(Seq<char>, Seq<char>)> {
    if find_dotdot(s) >= 0 {
        let i = find_dotdot(s);
        let left = s.subrange(0, i);
        let right = s.subrange(i + 2, s.len() as int);
        if find_dotdot(right) >= 0 {
            None
        } else {
            Some((left, right))
        }
    } else if find_char(s, '-') >= 0 {
        let i = find_char(s, '-');
        let left = s.subrange(0, i);
        let right = s.subrange(i + 1, s.len() as int);
        if find_char(right, '-') >= 0 {
            None
        } else {
            Some((left, right))
        }
    } else {
        None
    }
}

/// Every character is a decimal digit.
pub open spec fn all_digits(s: Seq<char>) -> bool {
    forall|i: int| 0 <= i < s.len() ==> is_digit_char(#[trigger] s[i])
}

/// The number the digit string denotes.
pub open spec fn digits_value(s: Seq<char>) -> int
    decreases s.len(),
{
    if s.len() == 0 {
        0
    } else {
        digits_value(s.drop_last()) * 10 + digit_val(s.last())
    }
}

/// A part parsed as a page number: trimmed, it must be a non-empty digit
/// string whose value fits in 32 bits.
pub open spec fn parse_u32_spec(part: Seq<char>) -> Option<u32> {
    let t = trim_spec(part);
    if t.len() > 0 && all_digits(t) && digits_value(t) <= u32::MAX {
        Some(digits_value(t) as u32)
    } else {
        None
    }
}

/// The outcome once the expression has been split in two parts.
pub open spec fn parts_outcome(l: Seq<char>, r: Seq<char>) -> Result<(u32, u32), PageRangeError> {
    if trim_spec(l).len() == 0 || trim_spec(r).len() == 0 {
        Err(PageRangeError::InvalidFormat)
    } else {
        match (parse_u32_spec(l), parse_u32_spec(r)) {
            (Some(a), Some(b)) => if a == 0 || b == 0 {
                Err(PageRangeError::InvalidPageNumber)
            } else if a > b {
                Err(PageRangeError::EmptyRange)
            } else {
                Ok((a, b))
            },
            _ => Err(PageRangeError::InvalidPageNumber),
        }
    }
}

/// The endpoints a page-range expression denotes, or the error it draws.
pub open spec fn spec_parse_range(s: Seq<char>) -> Result<(u32, u32), PageRangeError> {
    match split_parts(trim_spec(s)) {
        None => Err(PageRangeError::InvalidFormat),
        Some(p) => parts_outcome(p.0, p.1),
    }
}

proof fn lemma_trim_front_at(s: Seq<char>, k: int)
    requires
        0 <= k <= s.len(),
        forall|j: int| 0 <= j < k ==> is_space_char(#[trigger] s[j]),
        k == s.len() || !is_space_char(s[k]),
    ensures
        trim_front(s) == s.subrange(k, s.len() as int),
    decreases k,
{
    if k == 0 {
        assert(s =~= s.subrange(0, s.len() as int));
    } else {
        assert(is_space_char(s[0]));
        let t = s.drop_first();
        assert(forall|j: int| 0 <= j < k - 1 ==> is_space_char(#[trigger] t[j]));
        lemma_trim_front_at(t, k - 1);
        assert(t.subrange(k - 1, t.len() as int) =~= s.subrange(k, s.len() as int));
    }
}

proof fn lemma_trim_back_at(s: Seq<char>, k: int)
    requires
        0 <= k <= s.len(),
        forall|j: int| k <= j < s.len() ==> is_space_char(#[trigger] s[j]),
        k == 0 || !is_space_char(s[k - 1]),
    ensures
        trim_back(s) == s.subrange(0, k),
    decreases s.len() - k,
{
    if k == s.len() {
        if s.len() > 0 {
            assert(!is_space_char(s.last()));
        }
        assert(s =~= s.subrange(0, s.len() as int));
    } else {
        assert(is_space_char(s.last()));
        let t = s.drop_last();
        assert(forall|j: int| k <= j < t.len() ==> is_space_char(#[trigger] t[j]));
        lemma_trim_back_at(t, k);
        assert(t.subrange(0, k) =~= s.subrange(0, k));
    }
}

proof fn lemma_find_dotdot_at(s: Seq<char>, k: int)
    requires
        0 <= k,
        k + 1 < s.len(),
        forall|j: int| 0 <= j < k ==> !has_dotdot_at(s, j),
        has_dotdot_at(s, k),
    ensures
        find_dotdot(s) == k,
    decreases k,
{
    if k == 0 {
    } else {
        assert(!has_dotdot_at(s, 0));
        let t = s.drop_first();
        assert(forall|j: int| 0 <= j < k - 1 ==> !has_dotdot_at(t, j)) by {
            assert forall|j: int| 0 <= j < k - 1 implies !has_dotdot_at(t, j) by {
                assert(!has_dotdot_at(s, j + 1));
                assert(t[j] == s[j + 1] && t[j + 1] == s[j + 2]);
            }
        }
        assert(has_dotdot_at(t, k - 1)) by {
            assert(t[k - 1] == s[k] && t[k] == s[k + 1]);
        }
        lemma_find_dotdot_at(t, k - 1);
    }
}

proof fn lemma_find_dotdot_none(s: Seq<char>)
    requires
        forall|j: int| 0 <= j && j + 1 < s.len() ==> !has_dotdot_at(s, j),
    ensures
        find_dotdot(s) == -1,
    decreases s.len(),
{
    if s.len() < 2 {
    } else {
        assert(!has_dotdot_at(s, 0));
        let t = s.drop_first();
        assert(forall|j: int| 0 <= j && j + 1 < t.len() ==> !has_dotdot_at(t, j)) by {
            assert forall|j: int| 0 <= j && j + 1 < t.len() implies !has_dotdot_at(t, j) by {
                assert(!has_dotdot_at(s, j + 1));
                assert(t[j] == s[j + 1] && t[j + 1] == s[j + 2]);
            }
        }
        lemma_find_dotdot_none(t);
    }
}

proof fn lemma_find_char_at(s: Seq<char>, c: char, k: int)
    requires
        0 <= k < s.len(),
        forall|j: int| 0 <= j < k ==> s[j] != c,
        s[k] == c,
    ensures
        find_char(s, c) == k,
    decreases k,
{
    if k == 0 {
    } else {
        let t = s.drop_first();
        lemma_find_char_at(t, c, k - 1);
    }
}

proof fn lemma_find_char_none(s: Seq<char>, c: char)
    requires
        forall|j: int| 0 <= j < s.len() ==> s[j] != c,
    ensures
        find_char(s, c) == -1,
    decreases s.len(),
{
    if s.len() == 0 {
    } else {
        lemma_find_char_none(s.drop_first(), c);
    }
}

proof fn lemma_digits_value_nonneg(s: Seq<char>)
    requires
        all_digits(s),
    ensures
        digits_value(s) >= 0,
    decreases s.len(),
{
    if s.len() > 0 {
        let t = s.drop_last();
        assert(all_digits(t));
        lemma_digits_value_nonneg(t);
        assert(is_digit_char(s.last()));
    }
}

proof fn lemma_digits_value_prefix_bound(s: Seq<char>, k: int)
    requires
        0 <= k <= s.len(),
        all_digits(s),
    ensures
        digits_value(s.subrange(0, k)) <= digits_value(s),
    decreases s.len() - k,
{
    if k == s.len() {
        assert(s.subrange(0, k) =~= s);
    } else {
        let p = s.subrange(0, k);
        let q = s.subrange(0, k + 1);
        assert(q.drop_last() =~= p);
        assert(q.last() == s[k]);
        assert(all_digits(p)) by {
            assert forall|i: int| 0 <= i < p.len() implies is_digit_char(#[trigger] p[i]) by {
                assert(p[i] == s[i]);
            }
        }
        lemma_digits_value_nonneg(p);
        assert(is_digit_char(s[k]));
        assert(digits_value(q) == digits_value(p) * 10 + digit_val(s[k]));
        assert(digits_value(p) * 10 >= digits_value(p)) by (nonlinear_arith)
            requires
                digits_value(p) >= 0,
        ;
        lemma_digits_value_prefix_bound(s, k + 1);
    }
}

/// Trimmed copy of `v`.
fn trim_chars(v: &Vec<char>) -> (r: Vec<char>)
    ensures
        r@ == trim_spec(v@),
{
    let n = v.len();
    let mut lo: usize = 0;
    while lo < n && is_space_exec(v[lo])
        invariant
            0 <= lo <= n,
            n == v@.len(),
            forall|j: int| 0 <= j < lo ==> is_space_char(#[trigger] v@[j]),
        decreases n - lo,
    {
        lo = lo + 1;
    }
    let mut hi: usize = n;
    while hi > lo && is_space_exec(v[hi - 1])
        invariant
            lo <= hi <= n,
            n == v@.len(),
            forall|j: int| hi <= j < n ==> is_space_char(#[trigger] v@[j]),
        decreases hi,
    {
        hi = hi - 1;
    }
    let mut r: Vec<char> = Vec::new();
    let mut i: usize = lo;
    while i < hi
        invariant
            lo <= i <= hi <= n,
            n == v@.len(),
            r@ == v@.subrange(lo as int, i as int),
        decreases hi - i,
    {
        r.push(v[i]);
        i = i + 1;
        proof {
            assert(r@ =~= v@.subrange(lo as int, i as int));
        }
    }
    proof {
        lemma_trim_front_at(v@, lo as int);
        let f = v@.subrange(lo as int, n as int);
        lemma_trim_back_at(f, hi - lo);
        assert(f.subrange(0, hi - lo) =~= v@.subrange(lo as int, hi as int));
    }
    r
}

fn is_space_exec(c: char) -> (r: bool)
    ensures
        r == is_space_char(c),
{
    c == ' ' || c == '\t' || c == '\n' || c == '\r'
}

/// Leftmost `".."` in `v`, if any.
fn scan_dotdot(v: &Vec<char>) -> (r: Option<usize>)
    ensures
        match r {
            Some(i) => i + 1 < v@.len() && find_dotdot(v@) == i,
            None => find_dotdot(v@) == -1,
        },
{
    let n = v.len();
    if n < 2 {
        proof {
            lemma_find_dotdot_none(v@);
        }
        return None;
    }
    let mut i: usize = 0;
    while i + 1 < n
        invariant
            0 <= i,
            i + 1 <= n,
            n == v@.len(),
            forall|j: int| 0 <= j < i ==> !has_dotdot_at(v@, j),
        decreases n - i,
    {
        if v[i] == '.' && v[i + 1] == '.' {
            proof {
                lemma_find_dotdot_at(v@, i as int);
            }
            return Some(i);
        }
        proof {
            assert(!has_dotdot_at(v@, i as int));
        }
        i = i + 1;
    }
    proof {
        lemma_find_dotdot_none(v@);
    }
    None
}

/// Leftmost occurrence of `c` in `v`, if any.
fn scan_char(v: &Vec<char>, c: char) -> (r: Option<usize>)
    ensures
        match r {
            Some(i) => i < v@.len() && find_char(v@, c) == i,
            None => find_char(v@, c) == -1,
        },
{
    let n = v.len();
    let mut i: usize = 0;
    while i < n
        invariant
            0 <= i <= n,
            n == v@.len(),
            forall|j: int| 0 <= j < i ==> v@[j] != c,
        decreases n - i,
    {
        if v[i] == c {
            proof {
                lemma_find_char_at(v@, c, i as int);
            }
            return Some(i);
        }
        i = i + 1;
    }
    proof {
        lemma_find_char_none(v@, c);
    }
    None
}

/// Copy of `v[from..to]`.
fn sub_chars(v: &Vec<char>, from: usize, to: usize) -> (r: Vec<char>)
    requires
        from <= to <= v@.len(),
    ensures
        r@ == v@.subrange(from as int, to as int),
{
    let mut r: Vec<char> = Vec::new();
    let mut i: usize = from;
    while i < to
        invariant
            from <= i <= to <= v@.len(),
            r@ == v@.subrange(from as int, i as int),
        decreases to - i,
    {
        r.push(v[i]);
        i = i + 1;
        proof {
            assert(r@ =~= v@.subrange(from as int, i as int));
        }
    }
    r
}

/// A trimmed part read as a number, if it is one that fits.
fn digits_to_u32(t: &Vec<char>) -> (r: Option<u32>)
    ensures
        r == (if t@.len() > 0 && all_digits(t@) && digits_value(t@) <= u32::MAX {
            Some(digits_value(t@) as u32)
        } else {
            None::<u32>
        }),
{
    let n = t.len();
    if n == 0 {
        return None;
    }
    let mut acc: u32 = 0;
    let mut i: usize = 0;
    while i < n
        invariant
            0 <= i <= n,
            n == t@.len(),
            all_digits(t@.subrange(0, i as int)),
            acc == digits_value(t@.subrange(0, i as int)),
        decreases n - i,
    {
        let c = t[i];
        let d: u32 = match c {
            '0' => 0,
            '1' => 1,
            '2' => 2,
            '3' => 3,
            '4' => 4,
            '5' => 5,
            '6' => 6,
            '7' => 7,
            '8' => 8,
            '9' => 9,
            _ => {
                proof {
                    assert(!is_digit_char(t@[i as int]));
                }
                return None;
            },
        };
        let ghost p = t@.subrange(0, i as int);
        let ghost q = t@.subrange(0, i as int + 1);
        proof {
            assert(q.drop_last() =~= p);
            assert(q.last() == t@[i as int]);
            assert(is_digit_char(q.last()) && digit_val(q.last()) == d && d <= 9);
            assert(digits_value(q) == digits_value(p) * 10 + digit_val(q.last()));
            assert(digits_value(q) == acc * 10 + d);
            assert(all_digits(q));
        }
        let limit: u32 = (0xffff_ffffu32 - d) / 10;
        proof {
            lemma_fundamental_div_mod(0xffff_ffff - d, 10);
            lemma_mod_division_less_than_divisor(0xffff_ffff - d, 10);
        }
        if acc > limit {
            proof {
                assert(acc * 10 + d > 0xffff_ffff);
                if all_digits(t@) {
                    lemma_digits_value_prefix_bound(t@, i as int + 1);
                    assert(digits_value(t@) > u32::MAX);
                }
            }
            return None;
        }
        proof {
            assert(acc * 10 + d <= 0xffff_ffff);
        }
        acc = acc * 10 + d;
        i = i + 1;
    }
    proof {
        assert(t@.subrange(0, n as int) =~= t@);
    }
    Some(acc)
}

/// A part of the expression parsed as a page number.
fn parse_part(part: &Vec<char>) -> (r: Option<u32>)
    ensures
        r == parse_u32_spec(part@),
{
    let t = trim_chars(part);
    digits_to_u32(&t)
}

/// The pages `a..=b`, in ascending order.
fn make_interval(a: u32, b: u32) -> (r: Vec<u32>)
    requires
        a <= b,
    ensures
        r@.len() == b - a + 1,
        forall|i: int| 0 <= i < r@.len() ==> #[trigger] r@[i] == a + i,
{
    let count: u32 = b - a;
    let mut r: Vec<u32> = Vec::new();
    let mut i: u32 = 0;
    while i <= count
        invariant
            0 <= i <= count + 1,
            count == b - a,
            r@.len() == i,
            forall|j: int| 0 <= j < r@.len() ==> #[trigger] r@[j] == a + j,
        decreases count - i + 1,
    {
        r.push(a + i);
        if i == count {
            return r;
        }
        i = i + 1;
    }
    r
}

/// Both parts parsed, checked and expanded into the page list.
fn parse_parts(left: &Vec<char>, right: &Vec<char>) -> (r: Result<Vec<u32>, PageRangeError>)
    ensures
        match parts_outcome(left@, right@) {
            Ok((a, b)) => r matches Ok(v) && v@.len() == b - a + 1 && (forall|i: int|
                0 <= i < v@.len() ==> #[trigger] v@[i] == a + i),
            Err(e) => r matches Err(e2) && e2 == e,
        },
{
    let lt = trim_chars(left);
    let rt = trim_chars(right);
    if lt.len() == 0 || rt.len() == 0 {
        return Err(PageRangeError::InvalidFormat);
    }
    let a = match digits_to_u32(&lt) {
        Some(a) => a,
        None => {
            return Err(PageRangeError::InvalidPageNumber);
        },
    };
    let b = match digits_to_u32(&rt) {
        Some(b) => b,
        None => {
            return Err(PageRangeError::InvalidPageNumber);
        },
    };
    if a == 0 || b == 0 {
        return Err(PageRangeError::InvalidPageNumber);
    }
    if a > b {
        return Err(PageRangeError::EmptyRange);
    }
    Ok(make_interval(a, b))
}

/// Parse a page range expression and return the list of page numbers
/// (1-based) it denotes, ascending; or the error the expression draws,
/// exactly as [`spec_parse_range`] lays down.
pub fn parse_page_range(range_str: &str) -> (r: Result<Vec<u32>, PageRangeError>)
    ensures
        match spec_parse_range(range_str@) {
            Ok((a, b)) => r matches Ok(v) && v@.len() == b - a + 1 && (forall|i: int|
                0 <= i < v@.len() ==> #[trigger] v@[i] == a + i),
            Err(e) => r matches Err(e2) && e2 == e,
        },
{
    let cs = str_chars(range_str);
    let t = trim_chars(&cs);
    match scan_dotdot(&t) {
        Some(i) => {
            let tlen = t.len();
            let left = sub_chars(&t, 0, i);
            let right = sub_chars(&t, i + 2, tlen);
            match scan_dotdot(&right) {
                Some(_) => Err(PageRangeError::InvalidFormat),
                None => parse_parts(&left, &right),
            }
        },
        None => {
            match scan_char(&t, '-') {
                Some(i) => {
                    let tlen = t.len();
                    let left = sub_chars(&t, 0, i);
                    let right = sub_chars(&t, i + 1, tlen);
                    match scan_char(&right, '-') {
                        Some(_) => Err(PageRangeError::InvalidFormat),
                        None => parse_parts(&left, &right),
                    }
                },
                None => Err(PageRangeError::InvalidFormat),
            }
        },
    }
}

proof fn lemma_udec_digits(n: nat)
    ensures
        spec_udec(n).len() >= 1,
        all_digits(spec_udec(n)),
        digits_value(spec_udec(n)) == n,
    decreases n,
{
    if n < 10 {
        let c = spec_digit_char(n as int);
        let s1 = seq![c];
        assert(spec_udec(n) == s1);
        assert(s1.len() == 1 && s1.last() == c);
        assert(s1.drop_last() =~= Seq::<char>::empty());
        assert(digits_value(Seq::<char>::empty()) == 0);
        assert(digits_value(s1) == digits_value(s1.drop_last()) * 10 + digit_val(s1.last()));
        assert(digit_val(c) == n);
    } else {
        lemma_udec_digits(n / 10);
        let u = spec_udec(n / 10);
        let c = spec_digit_char((n % 10) as int);
        assert(spec_udec(n) == u.push(c));
        assert(u.push(c).drop_last() =~= u);
        assert(u.push(c).last() == c);
        assert(is_digit_char(c) && digit_val(c) == n % 10);
        assert forall|i: int| 0 <= i < u.push(c).len() implies is_digit_char(
            #[trigger] u.push(c)[i],
        ) by {
            if i < u.len() {
                assert(u.push(c)[i] == u[i]);
            } else {
                assert(u.push(c)[i] == c);
            }
        }
        assert(digits_value(u.push(c)) == digits_value(u) * 10 + digit_val(c));
        lemma_fundamental_div_mod(n as int, 10);
    }
}

proof fn lemma_digit_seq_untouched(u: Seq<char>)
    requires
        all_digits(u),
    ensures
        trim_spec(u) == u,
        parse_u32_spec(u) == (if u.len() > 0 && digits_value(u) <= u32::MAX {
            Some(digits_value(u) as u32)
        } else {
            None::<u32>
        }),
{
    if u.len() > 0 {
        assert(is_digit_char(u.first()));
        assert(is_digit_char(u.last()));
    }
    assert(trim_front(u) == u);
    assert(trim_back(u) == u);
}

/// For all endpoints 1 <= a <= b, the canonical expressions `"a-b"`
/// and `"a..b"` parse to exactly the endpoints (a, b) — and so, by
/// [`parse_page_range`]'s contract, to the ascending closed interval
/// [a, b] of length b - a + 1.
pub proof fn lemma_canonical_expression_parses(a: u32, b: u32)
    requires
        1 <= a <= b,
    ensures
        spec_parse_range(spec_udec(a as nat) + seq!['-'] + spec_udec(b as nat)) == Ok::<
            (u32, u32),
            PageRangeError,
        >((a, b)),
        spec_parse_range(spec_udec(a as nat) + seq!['.', '.'] + spec_udec(b as nat)) == Ok::<
            (u32, u32),
            PageRangeError,
        >((a, b)),
{
    lemma_udec_digits(a as nat);
    lemma_udec_digits(b as nat);
    let ua = spec_udec(a as nat);
    let ub = spec_udec(b as nat);
    lemma_digit_seq_untouched(ua);
    lemma_digit_seq_untouched(ub);

    // The dash form.
    let s = ua + seq!['-'] + ub;
    let i = ua.len() as int;
    assert(s.len() == ua.len() + 1 + ub.len());
    assert(forall|j: int| 0 <= j < i ==> #[trigger] s[j] == ua[j]);
    assert(s[i] == '-');
    assert(forall|j: int| i < j < s.len() ==> #[trigger] s[j] == ub[j - i - 1]);
    assert(is_digit_char(s.first()) && is_digit_char(s.last()));
    assert(trim_front(s) == s);
    assert(trim_back(s) == s);
    assert forall|j: int| 0 <= j && j + 1 < s.len() implies !has_dotdot_at(s, j) by {
        if j < i {
            assert(is_digit_char(s[j]));
        } else if j == i {
            assert(s[j] == '-');
        } else {
            assert(is_digit_char(s[j]));
        }
    }
    lemma_find_dotdot_none(s);
    assert(forall|j: int| 0 <= j < i ==> #[trigger] s[j] != '-');
    lemma_find_char_at(s, '-', i);
    let right = s.subrange(i + 1, s.len() as int);
    assert(right =~= ub);
    assert(forall|j: int| 0 <= j < right.len() ==> #[trigger] right[j] != '-');
    lemma_find_char_none(right, '-');
    assert(s.subrange(0, i) =~= ua);
    assert(split_parts(s) == Some((ua, ub)));
    assert(parts_outcome(ua, ub) == Ok::<(u32, u32), PageRangeError>((a, b)));
    assert(trim_spec(s) == s);

    // The double-dot form.
    let t = ua + seq!['.', '.'] + ub;
    assert(t.len() == ua.len() + 2 + ub.len());
    assert(forall|j: int| 0 <= j < i ==> #[trigger] t[j] == ua[j]);
    assert(t[i] == '.' && t[i + 1] == '.');
    assert(forall|j: int| i + 1 < j < t.len() ==> #[trigger] t[j] == ub[j - i - 2]);
    assert(is_digit_char(t.first()) && is_digit_char(t.last()));
    assert(trim_front(t) == t);
    assert(trim_back(t) == t);
    assert forall|j: int| 0 <= j < i implies !has_dotdot_at(t, j) by {
        assert(is_digit_char(t[j]));
    }
    assert(has_dotdot_at(t, i));
    lemma_find_dotdot_at(t, i);
    let tright = t.subrange(i + 2, t.len() as int);
    assert(tright =~= ub);
    assert forall|j: int| 0 <= j && j + 1 < tright.len() implies !has_dotdot_at(tright, j) by {
        assert(is_digit_char(tright[j]));
    }
    lemma_find_dotdot_none(tright);
    assert(t.subrange(0, i) =~= ua);
    assert(split_parts(t) == Some((ua, ub)));
    assert(trim_spec(t) == t);
}

} // verus!
