//! Process-group bookkeeping: wait statuses, the group field of a Linux
//! `/proc/<pid>/stat` line, and the checks that decide whether a child leads
//! its own process group.

use vstd::prelude::*;
use vstd::string::*;

use crate::text::{first_non_white, is_white_space, lemma_first_non_white_bounds, white_space};

verus! {

// ---------------------------------------------------------------------------
// Wait statuses
// ---------------------------------------------------------------------------

/// The raw `wait` status a process that exited with `code` reports: the low
/// byte of the code in bits 8..16, and no signal bits.
pub fn exit_status_from_code(code: u32) -> (r: i32)
    ensures
        r == (code % 256) * 256,
        r % 256 == 0,
        (r / 256) % 256 == code % 256,
{
    let low = (code % 256) as i32;
    low * 256
}

// ---------------------------------------------------------------------------
// Whitespace-separated fields
// ---------------------------------------------------------------------------

/// The first index at or after `i` that holds whitespace, or `s.len()`.
pub open spec fn word_end(s: Seq<char>, i: int) -> int
    decreases s.len() - i,
{
    if i >= s.len() {
        s.len() as int
    } else if is_white_space(s[i]) {
        i
    } else {
        word_end(s, i + 1)
    }
}

/// The start of the `k`-th (from zero) whitespace-separated word of `s` at
/// or after `i`.
pub open spec fn nth_word_start(s: Seq<char>, i: int, k: nat) -> Option<int>
    decreases k,
{
    let start = first_non_white(s, i);
    if start >= s.len() {
        None
    } else if k == 0 {
        Some(start)
    } else {
        nth_word_start(s, word_end(s, start), (k - 1) as nat)
    }
}

/// The `k`-th (from zero) word of `s`, as `split_whitespace().nth(k)`
/// yields it.
pub open spec fn nth_word(s: Seq<char>, k: nat) -> Option<Seq<char>> {
    match nth_word_start(s, 0, k) {
        Some(start) => Some(s.subrange(start, word_end(s, start))),
        None => None,
    }
}

proof fn lemma_word_end_ge(s: Seq<char>, i: int)
    requires
        0 <= i <= s.len(),
    ensures
        i <= word_end(s, i) <= s.len(),
    decreases s.len() - i,
{
    if i < s.len() && !is_white_space(s[i]) {
        lemma_word_end_ge(s, i + 1);
    }
}

proof fn lemma_nth_word_start_bounds(s: Seq<char>, i: int, k: nat)
    requires
        0 <= i <= s.len(),
    ensures
        nth_word_start(s, i, k) matches Some(start) ==> i <= start < s.len(),
    decreases k,
{
    lemma_first_non_white_bounds(s, i);
    let start = first_non_white(s, i);
    if start < s.len() && k > 0 {
        lemma_word_end_ge(s, start);
        lemma_nth_word_start_bounds(s, word_end(s, start), (k - 1) as nat);
    }
}

/// The `k`-th whitespace-separated word of `s[from..]`.
fn nth_word_at(s: &str, from: usize, k: usize) -> (r: Option<(usize, usize)>)
    requires
        from <= s@.len(),
    ensures
        match r {
            Some((a, b)) => nth_word_start(s@, from as int, k as nat) == Some(a as int) && b
                == word_end(s@, a as int) && a <= b <= s@.len(),
            None => nth_word_start(s@, from as int, k as nat) is None,
        },
    decreases k,
{
    let n = s.unicode_len();
    let mut a: usize = from;
    while a < n && white_space(s.get_char(a))
        invariant
            n == s@.len(),
            from <= a <= n,
            first_non_white(s@, a as int) == first_non_white(s@, from as int),
        decreases n - a,
    {
        a = a + 1;
    }
    if a >= n {
        return None;
    }
    let mut b: usize = a;
    while b < n && !white_space(s.get_char(b))
        invariant
            n == s@.len(),
            a <= b <= n,
            word_end(s@, b as int) == word_end(s@, a as int),
        decreases n - b,
    {
        b = b + 1;
    }
    if k == 0 {
        Some((a, b))
    } else {
        nth_word_at(s, b, k - 1)
    }
}

// ---------------------------------------------------------------------------
// Integers
// ---------------------------------------------------------------------------

/// The value of a run of ASCII digits.
pub open spec fn digits_value(d: Seq<char>) -> int
    decreases d.len(),
{
    if d.len() == 0 {
        0
    } else {
        digits_value(d.drop_last()) * 10 + (d.last() as int - '0' as int)
    }
}

/// Whether every character of `d` is an ASCII digit.
pub open spec fn all_digits(d: Seq<char>) -> bool {
    forall|k: int| 0 <= k < d.len() ==> '0' <= #[trigger] d[k] <= '9'
}

/// The `i32` whose magnitude is spelled by the digits `d`, negated when
/// `negative`; `None` when `d` is empty, holds a non-digit, or is out of range.
pub open spec fn signed_value(d: Seq<char>, negative: bool) -> Option<i32> {
    let v = if negative {
        -digits_value(d)
    } else {
        digits_value(d)
    };
    if d.len() > 0 && all_digits(d) && i32::MIN <= v <= i32::MAX {
        Some(v as i32)
    } else {
        None
    }
}

/// A decimal `i32` as `str::parse::<i32>` reads it: an optional `+` or `-`,
/// then one or more ASCII digits, whose value must fit the type.
pub open spec fn parsed_i32(s: Seq<char>) -> Option<i32> {
    if s.len() > 0 && (s[0] == '-' || s[0] == '+') {
        signed_value(s.drop_first(), s[0] == '-')
    } else {
        signed_value(s, false)
    }
}

proof fn lemma_digits_value_prefix(d: Seq<char>, i: int)
    requires
        0 <= i <= d.len(),
        all_digits(d),
    ensures
        0 <= digits_value(d.subrange(0, i)) <= digits_value(d),
    decreases d.len() - i,
{
    if i < d.len() {
        lemma_digits_value_prefix(d, i + 1);
        let p = d.subrange(0, i + 1);
        assert(p.drop_last() =~= d.subrange(0, i));
        assert(p.last() == d[i]);
    } else {
        assert(d.subrange(0, i) =~= d);
    }
    lemma_digits_value_nonneg(d.subrange(0, i));
}

proof fn lemma_digits_value_nonneg(d: Seq<char>)
    requires
        all_digits(d),
    ensures
        digits_value(d) >= 0,
    decreases d.len(),
{
    if d.len() > 0 {
        assert(all_digits(d.drop_last())) by {
            assert forall|k: int| 0 <= k < d.drop_last().len() implies '0' <= #[trigger] d.drop_last()[k] <= '9' by {
                assert(d.drop_last()[k] == d[k]);
            }
        }
        lemma_digits_value_nonneg(d.drop_last());
        assert('0' <= d[d.len() - 1] <= '9');
    }
}

/// Reads `s[from..to]` as an `i32`, as `str::parse::<i32>` does.
pub fn parse_i32(s: &str, from: usize, to: usize) -> (r: Option<i32>)
    requires
        from <= to <= s@.len(),
    ensures
        r == parsed_i32(s@.subrange(from as int, to as int)),
{
    let ghost t = s@.subrange(from as int, to as int);
    if from == to {
        return None;
    }
    let first = s.get_char(from);
    let negative = first == '-';
    let start = if first == '-' || first == '+' {
        from + 1
    } else {
        from
    };
    let ghost d = s@.subrange(start as int, to as int);
    proof {
        if first == '-' || first == '+' {
            assert(t.drop_first() =~= d);
        } else {
            assert(t =~= d);
        }
    }
    if start == to {
        return None;
    }
    // Magnitudes past 2^31 fit no i32, whatever digits follow.
    let mut acc: i64 = 0;
    let mut i: usize = start;
    while i < to
        invariant
            start <= i <= to <= s@.len(),
            d == s@.subrange(start as int, to as int),
            d.len() > 0,
            parsed_i32(s@.subrange(from as int, to as int)) == signed_value(d, negative),
            forall|k: int| start <= k < i ==> '0' <= #[trigger] s@[k] <= '9',
            acc == digits_value(s@.subrange(start as int, i as int)),
            0 <= acc <= 2147483648,
        decreases to - i,
    {
        let c = s.get_char(i);
        if c < '0' || c > '9' {
            proof {
                assert(d[i - start] == c);
            }
            return None;
        }
        let v = (c as u32 - '0' as u32) as i64;
        let ghost prev = s@.subrange(start as int, i as int);
        let ghost next = s@.subrange(start as int, i + 1);
        proof {
            assert(next.drop_last() =~= prev);
            assert(next.last() == c);
        }
        let grown = acc * 10 + v;
        if grown > 2147483648 {
            proof {
                if all_digits(d) {
                    assert(s@.subrange(start as int, i + 1) =~= d.subrange(0, i + 1 - start));
                    lemma_digits_value_prefix(d, i + 1 - start);
                }
            }
            return None;
        }
        acc = grown;
        i = i + 1;
    }
    proof {
        assert(s@.subrange(start as int, i as int) =~= d);
        assert(all_digits(d)) by {
            assert forall|k: int| 0 <= k < d.len() implies '0' <= #[trigger] d[k] <= '9' by {
                assert(d[k] == s@[start + k]);
            }
        }
    }
    if negative {
        Some((0 - acc) as i32)
    } else if acc > 2147483647 {
        None
    } else {
        Some(acc as i32)
    }
}

// ---------------------------------------------------------------------------
// `/proc/<pid>/stat`
// ---------------------------------------------------------------------------

/// The index of the last `)` in `s[..end]`.
pub open spec fn last_close_paren(s: Seq<char>, end: int) -> Option<int>
    decreases end,
{
    if end <= 0 {
        None
    } else if s[end - 1] == ')' {
        Some(end - 1)
    } else {
        last_close_paren(s, end - 1)
    }
}

/// The process group recorded in a `/proc/<pid>/stat` line: the third
/// whitespace-separated field after the last `)`. The command name before it
/// may itself hold spaces or parentheses, so nothing before the last `)` is
/// looked at.
pub open spec fn stat_process_group(stat: Seq<char>) -> Option<i32> {
    match last_close_paren(stat, stat.len() as int) {
        Some(k) => match nth_word_start(stat, k + 1, 2) {
            Some(a) => parsed_i32(stat.subrange(a, word_end(stat, a))),
            None => None,
        },
        None => None,
    }
}

proof fn lemma_last_close_paren_bounds(s: Seq<char>, end: int)
    requires
        0 <= end <= s.len(),
    ensures
        last_close_paren(s, end) matches Some(k) ==> 0 <= k < end && s[k] == ')',
    decreases end,
{
    if end > 0 && s[end - 1] != ')' {
        lemma_last_close_paren_bounds(s, end - 1);
    }
}

/// The process group recorded in a `/proc/<pid>/stat` line, or `None` when
/// the line has no such field or it is not a number.
pub fn process_group_of(stat: &str) -> (r: Option<i32>)
    ensures
        r == stat_process_group(stat@),
{
    let n = stat.unicode_len();
    let mut e: usize = n;
    while e > 0 && stat.get_char(e - 1) != ')'
        invariant
            n == stat@.len(),
            e <= n,
            last_close_paren(stat@, e as int) == last_close_paren(stat@, n as int),
        decreases e,
    {
        e = e - 1;
    }
    if e == 0 {
        return None;
    }
    proof {
        lemma_last_close_paren_bounds(stat@, n as int);
    }
    match nth_word_at(stat, e, 2) {
        Some((a, b)) => parse_i32(stat, a, b),
        None => None,
    }
}

/// How many of the stat lines record `pgid` as their process group.
pub open spec fn group_members(stats: Seq<String>, pgid: i32) -> nat
    decreases stats.len(),
{
    if stats.len() == 0 {
        0
    } else {
        group_members(stats.drop_last(), pgid) + if stat_process_group(stats.last()@) == Some(
            pgid,
        ) {
            1nat
        } else {
            0nat
        }
    }
}

/// Counts the live processes in group `pgid` from the stat lines of every
/// readable process.
pub fn count_group_members(stats: &Vec<String>, pgid: i32) -> (r: usize)
    ensures
        r == group_members(stats@, pgid),
{
    let mut count: usize = 0;
    let mut i: usize = 0;
    while i < stats.len()
        invariant
            i <= stats@.len(),
            count <= i,
            count == group_members(stats@.subrange(0, i as int), pgid),
        decreases stats.len() - i,
    {
        proof {
            let next = stats@.subrange(0, i + 1);
            assert(next.drop_last() =~= stats@.subrange(0, i as int));
            assert(next.last() == stats@[i as int]);
        }
        if process_group_of(stats[i].as_str()) == Some(pgid) {
            count = count + 1;
        }
        i = i + 1;
    }
    proof {
        assert(stats@.subrange(0, i as int) =~= stats@);
    }
    count
}

/// The processes in a group besides its leader.
pub fn other_process_count(process_count: usize) -> (r: usize)
    ensures
        r == if process_count > 0 {
            process_count - 1
        } else {
            0
        },
{
    process_count.saturating_sub(1)
}

// ---------------------------------------------------------------------------
// Attaching a child's process group
// ---------------------------------------------------------------------------

/// What `setpgid(pid, pid)` reported for a freshly spawned child.
#[derive(Debug, Clone, Copy, PartialEq, Eq, Structural)]
pub enum SetpgidResult {
    /// The call succeeded.
    Done,
    /// The kernel refused with `EACCES`: the child has already called `exec`,
    /// so its group can no longer be changed and has to be read back.
    AlreadyExecuted,
    /// Any other failure.
    Failed,
}

/// Why a child's process group could not be taken over.
#[derive(Debug, Clone, Copy, PartialEq, Eq, Structural)]
pub enum AttachError {
    /// `setpgid` failed for a reason other than an earlier `exec`.
    SetpgidFailed,
    /// The child does not lead its own process group.
    NotGroupLeader,
}

/// The next step of attaching a child's process group.
#[derive(Debug, Clone, Copy, PartialEq, Eq, Structural)]
pub enum AttachStep {
    /// Read the child's group back with `getpgid`.
    QueryGroup,
    /// The group is the child's own; it can be owned.
    Attached,
    /// Attaching failed.
    Fail(AttachError),
}

/// After `setpgid`: membership is read back unless the call failed for a
/// reason other than the child having already executed.
pub fn after_setpgid(result: SetpgidResult) -> (r: AttachStep)
    ensures
        r == if result == SetpgidResult::Failed {
            AttachStep::Fail(AttachError::SetpgidFailed)
        } else {
            AttachStep::QueryGroup
        },
{
    match result {
        SetpgidResult::Failed => AttachStep::Fail(AttachError::SetpgidFailed),
        _ => AttachStep::QueryGroup,
    }
}

/// After `getpgid`: the child is attached exactly when it leads its own
/// group.
pub fn after_getpgid(pid: i32, group: i32) -> (r: AttachStep)
    ensures
        r == if group == pid {
            AttachStep::Attached
        } else {
            AttachStep::Fail(AttachError::NotGroupLeader)
        },
{
    if group == pid {
        AttachStep::Attached
    } else {
        AttachStep::Fail(AttachError::NotGroupLeader)
    }
}

// ---------------------------------------------------------------------------
// The command name never decides the group
// ---------------------------------------------------------------------------

proof fn lemma_first_non_white_shift(h: Seq<char>, t: Seq<char>, i: int)
    requires
        h.len() <= i <= h.len() + t.len(),
    ensures
        first_non_white(h + t, i) == first_non_white(t, i - h.len()) + h.len(),
    decreases h.len() + t.len() - i,
{
    let s = h + t;
    if i < s.len() {
        assert(s[i] == t[i - h.len()]);
        if is_white_space(s[i]) {
            lemma_first_non_white_shift(h, t, i + 1);
        }
    }
}

proof fn lemma_word_end_shift(h: Seq<char>, t: Seq<char>, i: int)
    requires
        h.len() <= i <= h.len() + t.len(),
    ensures
        word_end(h + t, i) == word_end(t, i - h.len()) + h.len(),
    decreases h.len() + t.len() - i,
{
    let s = h + t;
    if i < s.len() {
        assert(s[i] == t[i - h.len()]);
        if !is_white_space(s[i]) {
            lemma_word_end_shift(h, t, i + 1);
        }
    }
}

proof fn lemma_nth_word_start_shift(h: Seq<char>, t: Seq<char>, i: int, k: nat)
    requires
        h.len() <= i <= h.len() + t.len(),
    ensures
        nth_word_start(h + t, i, k) == match nth_word_start(t, i - h.len(), k) {
            Some(a) => Some(a + h.len()),
            None => None::<int>,
        },
    decreases k,
{
    let s = h + t;
    lemma_first_non_white_shift(h, t, i);
    lemma_first_non_white_bounds(s, i);
    let start = first_non_white(s, i);
    if start < s.len() && k > 0 {
        lemma_word_end_shift(h, t, start);
        lemma_word_end_ge(s, start);
        lemma_nth_word_start_shift(h, t, word_end(s, start), (k - 1) as nat);
    }
}

proof fn lemma_last_close_paren_after(s: Seq<char>, at: int, end: int)
    requires
        0 <= at < end <= s.len(),
        s[at] == ')',
        forall|k: int| at < k < end ==> s[k] != ')',
    ensures
        last_close_paren(s, end) == Some(at),
    decreases end,
{
    if end - 1 > at {
        lemma_last_close_paren_after(s, at, end - 1);
    }
}

/// The group read from a stat line depends only on what follows the last
/// `)`: whatever the command name before it holds (spaces, parentheses,
/// digits), the line `head + ")" + rest` yields the group of `")" + rest`.
pub proof fn lemma_stat_ignores_command_name(head: Seq<char>, rest: Seq<char>)
    requires
        forall|k: int| 0 <= k < rest.len() ==> rest[k] != ')',
    ensures
        stat_process_group(head + seq![')'] + rest) == stat_process_group(seq![')'] + rest),
{
    let t = seq![')'] + rest;
    let s = head + t;
    assert(s =~= head + seq![')'] + rest);
    assert(s[head.len() as int] == ')');
    assert forall|k: int| head.len() < k < s.len() implies s[k] != ')' by {
        assert(s[k] == rest[k - head.len() - 1]);
    }
    lemma_last_close_paren_after(s, head.len() as int, s.len() as int);
    assert forall|k: int| 0 < k < t.len() implies t[k] != ')' by {
        assert(t[k] == rest[k - 1]);
    }
    lemma_last_close_paren_after(t, 0, t.len() as int);
    lemma_nth_word_start_shift(head, t, head.len() as int + 1, 2);
    match nth_word_start(t, 1, 2) {
        Some(a) => {
            lemma_nth_word_start_bounds(t, 1, 2);
            lemma_word_end_shift(head, t, a + head.len());
            lemma_word_end_ge(t, a);
            assert(s.subrange(a + head.len(), word_end(s, a + head.len())) =~= t.subrange(
                a,
                word_end(t, a),
            ));
        },
        None => {},
    }
}

} // verus!
