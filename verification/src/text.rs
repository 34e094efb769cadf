//! Character-level helpers on `str` and `String` shared by the other modules.

use vstd::prelude::*;
use vstd::string::*;

verus! {

/// Whether two character sequences spell the same text.
pub fn same_text(a: &str, b: &str) -> (r: bool)
    ensures
        r == (a@ == b@),
{
    let n = a.unicode_len();
    let m = b.unicode_len();
    if n != m {
        return false;
    }
    let mut i: usize = 0;
    while i < n
        invariant
            n == a@.len(),
            m == b@.len(),
            n == m,
            i <= n,
            forall|j: int| 0 <= j < i ==> a@[j] == b@[j],
        decreases n - i,
    {
        if a.get_char(i) != b.get_char(i) {
            return false;
        }
        i = i + 1;
    }
    assert(a@ =~= b@);
    true
}

// ---------------------------------------------------------------------------
// Whitespace and trimming
// ---------------------------------------------------------------------------

/// The Unicode `White_Space` property: the characters that `str::trim` and
/// `str::split_whitespace` treat as whitespace.
pub open spec fn is_white_space(c: char) -> bool {
    let v = c as u32;
    ||| 0x09 <= v <= 0x0d
    ||| v == 0x20
    ||| v == 0x85
    ||| v == 0xa0
    ||| v == 0x1680
    ||| 0x2000 <= v <= 0x200a
    ||| v == 0x2028
    ||| v == 0x2029
    ||| v == 0x202f
    ||| v == 0x205f
    ||| v == 0x3000
}

/// Whether `c` has the Unicode `White_Space` property.
pub fn white_space(c: char) -> (r: bool)
    ensures
        r == is_white_space(c),
{
    let v = c as u32;
    (0x09 <= v && v <= 0x0d) || v == 0x20 || v == 0x85 || v == 0xa0 || v == 0x1680 || (0x2000
        <= v && v <= 0x200a) || v == 0x2028 || v == 0x2029 || v == 0x202f || v == 0x205f || v
        == 0x3000
}

/// The index of the first non-whitespace character of `s` at or after `i`,
/// or `s.len()` when there is none.
pub open spec fn first_non_white(s: Seq<char>, i: int) -> int
    decreases s.len() - i,
{
    if i >= s.len() {
        s.len() as int
    } else if is_white_space(s[i]) {
        first_non_white(s, i + 1)
    } else {
        i
    }
}

/// One past the index of the last non-whitespace character of `s` before
/// `j`, or `0` when there is none.
pub open spec fn end_non_white(s: Seq<char>, j: int) -> int
    decreases j,
{
    if j <= 0 {
        0
    } else if is_white_space(s[j - 1]) {
        end_non_white(s, j - 1)
    } else {
        j
    }
}

/// `s` without its leading and trailing whitespace.
pub open spec fn trimmed(s: Seq<char>) -> Seq<char> {
    let a = first_non_white(s, 0);
    let b = end_non_white(s, s.len() as int);
    if a < b {
        s.subrange(a, b)
    } else {
        Seq::empty()
    }
}

/// The first non-whitespace index at or after `i` lies within the text, with
/// only whitespace before it.
pub proof fn lemma_first_non_white_bounds(s: Seq<char>, i: int)
    requires
        0 <= i <= s.len(),
    ensures
        i <= first_non_white(s, i) <= s.len(),
        forall|k: int| i <= k < first_non_white(s, i) ==> is_white_space(#[trigger] s[k]),
        first_non_white(s, i) < s.len() ==> !is_white_space(s[first_non_white(s, i)]),
    decreases s.len() - i,
{
    if i < s.len() && is_white_space(s[i]) {
        lemma_first_non_white_bounds(s, i + 1);
    }
}

proof fn lemma_end_non_white_bounds(s: Seq<char>, j: int)
    requires
        0 <= j <= s.len(),
    ensures
        0 <= end_non_white(s, j) <= j,
        forall|k: int| end_non_white(s, j) <= k < j ==> is_white_space(#[trigger] s[k]),
        end_non_white(s, j) > 0 ==> !is_white_space(s[end_non_white(s, j) - 1]),
    decreases j,
{
    if j > 0 && is_white_space(s[j - 1]) {
        lemma_end_non_white_bounds(s, j - 1);
    }
}

/// The text is empty once its surrounding whitespace is removed exactly when
/// every character of it is whitespace.
pub proof fn lemma_trimmed_empty(s: Seq<char>)
    ensures
        trimmed(s).len() == 0 <==> (forall|k: int| 0 <= k < s.len() ==> is_white_space(s[k])),
{
    lemma_first_non_white_bounds(s, 0);
    lemma_end_non_white_bounds(s, s.len() as int);
    let a = first_non_white(s, 0);
    let b = end_non_white(s, s.len() as int);
    if a < b {
        assert(!is_white_space(s[a]));
    } else {
        assert forall|k: int| 0 <= k < s.len() implies is_white_space(s[k]) by {
            if k >= a {
                assert(k >= b);
            }
        }
    }
}

/// `s` without leading and trailing whitespace, as `str::trim` defines it.
pub fn trim(s: &str) -> (r: &str)
    ensures
        r@ == trimmed(s@),
{
    let n = s.unicode_len();
    let mut a: usize = 0;
    while a < n && white_space(s.get_char(a))
        invariant
            n == s@.len(),
            a <= n,
            first_non_white(s@, a as int) == first_non_white(s@, 0),
        decreases n - a,
    {
        a = a + 1;
    }
    let mut b: usize = n;
    while b > 0 && white_space(s.get_char(b - 1))
        invariant
            n == s@.len(),
            b <= n,
            end_non_white(s@, b as int) == end_non_white(s@, n as int),
        decreases b,
    {
        b = b - 1;
    }
    if a < b {
        s.substring_char(a, b)
    } else {
        s.substring_char(0, 0)
    }
}

// ---------------------------------------------------------------------------
// Path components
// ---------------------------------------------------------------------------

/// The end of the final component of the `/`-separated path `p[..end]`:
/// trailing separators and `.` components are passed over, as `Path`'s
/// component iteration does on Unix.
pub open spec fn final_component_end(p: Seq<char>, end: int) -> int
    decreases end,
{
    if end <= 0 {
        0
    } else if p[end - 1] == '/' {
        final_component_end(p, end - 1)
    } else if p[end - 1] == '.' && (end == 1 || p[end - 2] == '/') {
        final_component_end(p, end - 1)
    } else {
        end
    }
}

/// The start of the segment that ends at `end`: one past the last `/` before
/// `end`, or `0`.
pub open spec fn segment_start(p: Seq<char>, end: int) -> int
    decreases end,
{
    if end <= 0 {
        0
    } else if p[end - 1] == '/' {
        end
    } else {
        segment_start(p, end - 1)
    }
}

/// The final component of the `/`-separated path `p`, as `Path::file_name`
/// reports it: `None` for an empty path, a root, or a path whose final
/// component is `..`.
pub open spec fn path_file_name(p: Seq<char>) -> Option<Seq<char>> {
    let e = final_component_end(p, p.len() as int);
    let name = p.subrange(segment_start(p, e), e);
    if e == 0 || name == seq!['.', '.'] {
        None
    } else {
        Some(name)
    }
}

proof fn lemma_final_component_end_bounds(p: Seq<char>, end: int)
    requires
        0 <= end <= p.len(),
    ensures
        0 <= final_component_end(p, end) <= end,
        final_component_end(p, end) > 0 ==> p[final_component_end(p, end) - 1] != '/',
    decreases end,
{
    if end > 0 {
        if p[end - 1] == '/' || (p[end - 1] == '.' && (end == 1 || p[end - 2] == '/')) {
            lemma_final_component_end_bounds(p, end - 1);
        }
    }
}

proof fn lemma_segment_start_bounds(p: Seq<char>, end: int)
    requires
        0 <= end <= p.len(),
    ensures
        0 <= segment_start(p, end) <= end,
        forall|k: int| segment_start(p, end) <= k < end ==> #[trigger] p[k] != '/',
    decreases end,
{
    if end > 0 && p[end - 1] != '/' {
        lemma_segment_start_bounds(p, end - 1);
    }
}

/// A file name is never empty, never holds a separator, and is never `..`.
pub proof fn lemma_file_name_is_one_component(p: Seq<char>)
    ensures
        path_file_name(p) matches Some(name) ==> {
            &&& name.len() > 0
            &&& forall|k: int| 0 <= k < name.len() ==> name[k] != '/'
            &&& name != seq!['.', '.']
        },
{
    let e = final_component_end(p, p.len() as int);
    lemma_final_component_end_bounds(p, p.len() as int);
    lemma_segment_start_bounds(p, e);
    let s = segment_start(p, e);
    if e > 0 {
        // `p[e - 1]` is no separator, so the segment ending at `e` is not empty
        lemma_segment_start_bounds(p, e - 1);
        assert(s < e);
        let name = p.subrange(s, e);
        assert forall|k: int| 0 <= k < name.len() implies name[k] != '/' by {
            assert(name[k] == p[s + k]);
        }
    }
}

/// The final component of the path `p`, as `Path::file_name` reports it.
pub fn file_name(p: &str) -> (r: Option<String>)
    ensures
        match r {
            Some(name) => path_file_name(p@) == Some(name@),
            None => path_file_name(p@) is None,
        },
{
    let n = p.unicode_len();
    let mut e: usize = n;
    loop
        invariant
            n == p@.len(),
            e <= n,
            final_component_end(p@, e as int) == final_component_end(p@, n as int),
        ensures
            e <= n,
            final_component_end(p@, e as int) == final_component_end(p@, n as int),
            final_component_end(p@, e as int) == e,
        decreases e,
    {
        if e == 0 {
            break;
        }
        let c = p.get_char(e - 1);
        if c == '/' {
            e = e - 1;
        } else if c == '.' && (e == 1 || p.get_char(e - 2) == '/') {
            e = e - 1;
        } else {
            break;
        }
    }
    assert(final_component_end(p@, e as int) == e);
    let mut s: usize = e;
    while s > 0 && p.get_char(s - 1) != '/'
        invariant
            n == p@.len(),
            s <= e <= n,
            segment_start(p@, s as int) == segment_start(p@, e as int),
        decreases s,
    {
        s = s - 1;
    }
    if e == 0 {
        return None;
    }
    let name = p.substring_char(s, e);
    if same_text(name, "..") {
        proof {
            reveal_strlit("..");
            assert(seq!['.', '.'] =~= ".."@);
        }
        None
    } else {
        proof {
            reveal_strlit("..");
            assert(seq!['.', '.'] =~= ".."@);
        }
        Some(String::from_str(name))
    }
}

// ---------------------------------------------------------------------------
// Decimal numerals
// ---------------------------------------------------------------------------

/// The ASCII digit for `d`, which is below ten.
pub open spec fn digit_char(d: nat) -> char {
    ((d + 48) as u8) as char
}

/// The decimal numeral of `n`, most significant digit first, with no leading
/// zeros.
pub open spec fn decimal(n: nat) -> Seq<char>
    decreases n,
{
    if n < 10 {
        seq![digit_char(n)]
    } else {
        decimal(n / 10).push(digit_char(n % 10))
    }
}

/// Whether `c` is an ASCII decimal digit.
pub open spec fn is_digit(c: char) -> bool {
    '0' <= c <= '9'
}

/// A numeral is a non-empty run of digits.
pub proof fn lemma_decimal_digits(n: nat)
    ensures
        decimal(n).len() >= 1,
        n >= 10 ==> decimal(n).len() >= 2,
        forall|k: int| 0 <= k < decimal(n).len() ==> is_digit(#[trigger] decimal(n)[k]),
    decreases n,
{
    if n >= 10 {
        lemma_decimal_digits(n / 10);
    }
}

/// Distinct numbers have distinct numerals.
pub proof fn lemma_decimal_injective(a: nat, b: nat)
    requires
        decimal(a) == decimal(b),
    ensures
        a == b,
    decreases a,
{
    lemma_decimal_digits(a);
    lemma_decimal_digits(b);
    if a < 10 && b < 10 {
        assert(decimal(a)[0] == digit_char(a));
        assert(decimal(b)[0] == digit_char(b));
    } else if a >= 10 && b >= 10 {
        let da = decimal(a);
        let db = decimal(b);
        assert(da.last() == digit_char(a % 10));
        assert(db.last() == digit_char(b % 10));
        assert(da.drop_last() =~= decimal(a / 10));
        assert(db.drop_last() =~= decimal(b / 10));
        lemma_decimal_injective(a / 10, b / 10);
    }
}

/// Appends the decimal numeral of `n`.
pub fn push_decimal(s: &mut String, n: u64)
    ensures
        final(s)@ == old(s)@ + decimal(n as nat),
    decreases n,
{
    if n >= 10 {
        push_decimal(s, n / 10);
    }
    let d = (n % 10) as usize;
    let digits = "0123456789";
    proof {
        reveal_strlit("0123456789");
        assert(digits@ =~= seq!['0', '1', '2', '3', '4', '5', '6', '7', '8', '9']);
        assert(digits@[d as int] == digit_char(d as nat));
    }
    s.append(digits.substring_char(d, d + 1));
    proof {
        assert(digits@.subrange(d as int, d + 1) =~= seq![digit_char(d as nat)]);
        assert(decimal(n as nat) =~= if n < 10 {
            seq![digit_char(n as nat)]
        } else {
            decimal((n / 10) as nat).push(digit_char((n % 10) as nat))
        });
    }
}

} // verus!
