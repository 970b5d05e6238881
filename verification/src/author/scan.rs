//! Character-level helpers of the author syntax: positions, searches,
//! trimming, and the scan of an embedded IR fragment.
//!
//! Author text is handled as its characters; a position's offset counts the
//! UTF-8 bytes before it, as IR spans do. Positions saturate at the largest
//! `usize` rather than wrap.
use vstd::prelude::*;

use crate::ir::lexer::{Position, Span};
use crate::text::{char_is_whitespace, char_utf8_len, is_ws, utf8_len};

verus! {

/// `a`, or the largest `usize` when `a` is larger.
pub open spec fn sat(a: int) -> usize {
    if a > usize::MAX {
        usize::MAX
    } else {
        a as usize
    }
}

/// The position after `c`, when `c` starts at `p`.
pub open spec fn step_pos(p: Position, c: char) -> Position {
    if c == '\n' {
        Position { offset: sat(p.offset + utf8_len(c)), line: sat(p.line + 1), column: 1 }
    } else {
        Position { offset: sat(p.offset + utf8_len(c)), line: p.line, column: sat(p.column + 1) }
    }
}

/// The position reached from `p` after the characters `seg`.
pub open spec fn pos_over(p: Position, seg: Seq<char>) -> Position
    decreases seg.len(),
{
    if seg.len() == 0 {
        p
    } else {
        step_pos(pos_over(p, seg.drop_last()), seg.last())
    }
}

/// The span of `s[a..b]`, when `s` starts at `base`.
pub open spec fn span_in(base: Position, s: Seq<char>, a: int, b: int) -> Span {
    Span { start: pos_over(base, s.take(a)), end: pos_over(base, s.take(b)) }
}

/// The start of a text.
pub open spec fn origin() -> Position {
    Position { offset: 0, line: 1, column: 1 }
}

fn sat_add(a: usize, b: usize) -> (r: usize)
    ensures
        r == sat(a + b),
{
    if a > usize::MAX - b {
        usize::MAX
    } else {
        a + b
    }
}

pub fn step_position(p: Position, c: char) -> (r: Position)
    ensures
        r == step_pos(p, c),
{
    let n = char_utf8_len(c);
    if c == '\n' {
        Position { offset: sat_add(p.offset, n), line: sat_add(p.line, 1), column: 1 }
    } else {
        Position { offset: sat_add(p.offset, n), line: p.line, column: sat_add(p.column, 1) }
    }
}

/// The position after `s[..k]`, from `base`.
pub fn position_of(base: Position, s: &Vec<char>, k: usize) -> (r: Position)
    requires
        k <= s@.len(),
    ensures
        r == pos_over(base, s@.take(k as int)),
{
    let mut p = base;
    let mut i: usize = 0;
    assert(s@.take(0) =~= Seq::<char>::empty());
    while i < k
        invariant
            i <= k <= s@.len(),
            p == pos_over(base, s@.take(i as int)),
        decreases k - i,
    {
        assert(s@.take(i + 1).drop_last() =~= s@.take(i as int));
        p = step_position(p, s[i]);
        i += 1;
    }
    p
}

/// The span of `s[a..b]`, when `s` starts at `base`.
pub fn span_of(base: Position, s: &Vec<char>, a: usize, b: usize) -> (r: Span)
    requires
        a <= s@.len(),
        b <= s@.len(),
    ensures
        r == span_in(base, s@, a as int, b as int),
{
    Span { start: position_of(base, s, a), end: position_of(base, s, b) }
}

/// Whether `s[i]` is `c`.
pub open spec fn at(s: Seq<char>, i: int, c: char) -> bool {
    0 <= i < s.len() && s[i] == c
}

/// Whether `s[i]` is `c` and `s[i + 1]` is `d`.
pub open spec fn at2(s: Seq<char>, i: int, c: char, d: char) -> bool {
    at(s, i, c) && at(s, i + 1, d)
}

pub fn at_exec(s: &Vec<char>, i: usize, c: char) -> (r: bool)
    ensures
        r == at(s@, i as int, c),
{
    i < s.len() && s[i] == c
}

pub fn at2_exec(s: &Vec<char>, i: usize, c: char, d: char) -> (r: bool)
    ensures
        r == at2(s@, i as int, c, d),
{
    i < s.len() && s[i] == c && i < s.len() - 1 && s[i + 1] == d
}

/// The index of the first `c` in `s` at or after `i`, or -1.
pub open spec fn find_char(s: Seq<char>, c: char, i: int) -> int
    decreases s.len() - i,
{
    if i < 0 || i >= s.len() {
        -1
    } else if s[i] == c {
        i
    } else {
        find_char(s, c, i + 1)
    }
}

pub proof fn lemma_find_char(s: Seq<char>, c: char, i: int)
    requires
        0 <= i,
    ensures
        find_char(s, c, i) == -1 || (i <= find_char(s, c, i) < s.len() && s[find_char(s, c, i)]
            == c),
    decreases s.len() - i,
{
    if i < s.len() && s[i] != c {
        lemma_find_char(s, c, i + 1);
    }
}

/// The index of the first `c` in `s` at or after `i`, or `None`.
pub fn find_char_exec(s: &Vec<char>, c: char, i: usize) -> (r: Option<usize>)
    ensures
        match r {
            Some(k) => find_char(s@, c, i as int) == k,
            None => find_char(s@, c, i as int) == -1,
        },
{
    let mut k = i;
    while k < s.len()
        invariant
            i <= k,
            find_char(s@, c, i as int) == find_char(s@, c, k as int),
        decreases s@.len() - k,
    {
        if s[k] == c {
            return Some(k);
        }
        k += 1;
    }
    None
}

/// The index of the first pair `cc` in `s` at or after `i`, or -1.
pub open spec fn find_double(s: Seq<char>, c: char, i: int) -> int
    decreases s.len() - i,
{
    if i < 0 || i + 1 >= s.len() {
        -1
    } else if s[i] == c && s[i + 1] == c {
        i
    } else {
        find_double(s, c, i + 1)
    }
}

pub proof fn lemma_find_double(s: Seq<char>, c: char, i: int)
    requires
        0 <= i,
    ensures
        find_double(s, c, i) == -1 || (i <= find_double(s, c, i) && find_double(s, c, i) + 2
            <= s.len()),
    decreases s.len() - i,
{
    if i + 1 < s.len() && !(s[i] == c && s[i + 1] == c) {
        lemma_find_double(s, c, i + 1);
    }
}

pub fn find_double_exec(s: &Vec<char>, c: char, i: usize) -> (r: Option<usize>)
    ensures
        match r {
            Some(k) => find_double(s@, c, i as int) == k,
            None => find_double(s@, c, i as int) == -1,
        },
{
    let mut k = i;
    while k < s.len() && k + 1 < s.len()
        invariant
            i <= k,
            find_double(s@, c, i as int) == find_double(s@, c, k as int),
        decreases s@.len() - k,
    {
        if s[k] == c && s[k + 1] == c {
            return Some(k);
        }
        k += 1;
    }
    None
}

/// The end of the whitespace from `i`, before `e`.
pub open spec fn skip_ws_fwd(s: Seq<char>, i: int, e: int) -> int
    decreases e - i,
{
    if 0 <= i < e && i < s.len() && is_ws(s[i]) {
        skip_ws_fwd(s, i + 1, e)
    } else {
        i
    }
}

/// The start of the whitespace that ends at `j`, after `a`.
pub open spec fn skip_ws_back(s: Seq<char>, a: int, j: int) -> int
    decreases j - a,
{
    if a < j && 0 < j <= s.len() && is_ws(s[j - 1]) {
        skip_ws_back(s, a, j - 1)
    } else {
        j
    }
}

/// The bounds of `s[a..b]` without its leading and trailing whitespace.
pub open spec fn trimmed(s: Seq<char>, a: int, b: int) -> (int, int) {
    let ts = skip_ws_fwd(s, a, b);
    (ts, skip_ws_back(s, ts, b))
}

pub proof fn lemma_trimmed(s: Seq<char>, a: int, b: int)
    requires
        0 <= a <= b <= s.len(),
    ensures
        a <= trimmed(s, a, b).0 <= trimmed(s, a, b).1 <= b,
    decreases b - a,
{
    lemma_skip_fwd(s, a, b);
    lemma_skip_back(s, trimmed(s, a, b).0, b);
}

proof fn lemma_skip_fwd(s: Seq<char>, i: int, e: int)
    requires
        0 <= i <= e <= s.len(),
    ensures
        i <= skip_ws_fwd(s, i, e) <= e,
    decreases e - i,
{
    if i < e && is_ws(s[i]) {
        lemma_skip_fwd(s, i + 1, e);
    }
}

proof fn lemma_skip_back(s: Seq<char>, a: int, j: int)
    requires
        0 <= a <= j <= s.len(),
    ensures
        a <= skip_ws_back(s, a, j) <= j,
    decreases j - a,
{
    if a < j && is_ws(s[j - 1]) {
        lemma_skip_back(s, a, j - 1);
    }
}

/// The bounds of `s[a..b]` without its leading and trailing whitespace.
pub fn trim_range(s: &Vec<char>, a: usize, b: usize) -> (r: (usize, usize))
    requires
        a <= b <= s@.len(),
    ensures
        r.0 == trimmed(s@, a as int, b as int).0,
        r.1 == trimmed(s@, a as int, b as int).1,
        a <= r.0 <= r.1 <= b,
{
    proof {
        lemma_trimmed(s@, a as int, b as int);
    }
    let mut i = a;
    while i < b && char_is_whitespace(s[i])
        invariant
            a <= i <= b <= s@.len(),
            skip_ws_fwd(s@, a as int, b as int) == skip_ws_fwd(s@, i as int, b as int),
        decreases b - i,
    {
        i += 1;
    }
    let mut j = b;
    while j > i && char_is_whitespace(s[j - 1])
        invariant
            a <= i <= j <= b <= s@.len(),
            i == skip_ws_fwd(s@, a as int, b as int),
            skip_ws_back(s@, i as int, b as int) == skip_ws_back(s@, i as int, j as int),
        decreases j - i,
    {
        j -= 1;
    }
    (i, j)
}

/// A copy of `s[a..b]`.
pub fn chars_range(s: &Vec<char>, a: usize, b: usize) -> (r: Vec<char>)
    requires
        a <= b <= s@.len(),
    ensures
        r@ == s@.subrange(a as int, b as int),
{
    let mut out: Vec<char> = Vec::new();
    let mut i = a;
    while i < b
        invariant
            a <= i <= b <= s@.len(),
            out@ == s@.subrange(a as int, i as int),
        decreases b - i,
    {
        out.push(s[i]);
        i += 1;
        assert(out@ =~= s@.subrange(a as int, i as int));
    }
    out
}

/// Where the embedded IR fragment scanned from `k` closes: the index of
/// its closing parenthesis, or -1. Strings are skipped (with their escapes),
/// and parentheses inside `[...]` do not count.
pub open spec fn scan_ir(s: Seq<char>, k: int, paren: nat, bracket: nat, in_str: bool, esc: bool) -> int
    decreases s.len() - k,
{
    if k < 0 || k >= s.len() {
        -1
    } else {
        let c = s[k];
        if in_str {
            if esc {
                scan_ir(s, k + 1, paren, bracket, true, false)
            } else if c == '\\' {
                scan_ir(s, k + 1, paren, bracket, true, true)
            } else if c == '"' {
                scan_ir(s, k + 1, paren, bracket, false, false)
            } else {
                scan_ir(s, k + 1, paren, bracket, true, false)
            }
        } else if c == '"' {
            scan_ir(s, k + 1, paren, bracket, true, false)
        } else if c == '[' {
            scan_ir(s, k + 1, paren, bracket + 1, false, false)
        } else if c == ']' && bracket > 0 {
            scan_ir(s, k + 1, paren, (bracket - 1) as nat, false, false)
        } else if c == '(' && bracket == 0 {
            scan_ir(s, k + 1, paren + 1, bracket, false, false)
        } else if c == ')' && bracket == 0 {
            if paren <= 1 {
                k
            } else {
                scan_ir(s, k + 1, (paren - 1) as nat, bracket, false, false)
            }
        } else {
            scan_ir(s, k + 1, paren, bracket, false, false)
        }
    }
}

pub proof fn lemma_scan_ir(s: Seq<char>, k: int, paren: nat, bracket: nat, in_str: bool, esc: bool)
    requires
        0 <= k,
    ensures
        scan_ir(s, k, paren, bracket, in_str, esc) == -1 || k <= scan_ir(
            s,
            k,
            paren,
            bracket,
            in_str,
            esc,
        ) < s.len(),
    decreases s.len() - k,
{
    if k < s.len() {
        let c = s[k];
        if in_str {
            if esc {
                lemma_scan_ir(s, k + 1, paren, bracket, true, false);
            } else if c == '\\' {
                lemma_scan_ir(s, k + 1, paren, bracket, true, true);
            } else if c == '"' {
                lemma_scan_ir(s, k + 1, paren, bracket, false, false);
            } else {
                lemma_scan_ir(s, k + 1, paren, bracket, true, false);
            }
        } else if c == '"' {
            lemma_scan_ir(s, k + 1, paren, bracket, true, false);
        } else if c == '[' {
            lemma_scan_ir(s, k + 1, paren, bracket + 1, false, false);
        } else if c == ']' && bracket > 0 {
            lemma_scan_ir(s, k + 1, paren, (bracket - 1) as nat, false, false);
        } else if c == '(' && bracket == 0 {
            lemma_scan_ir(s, k + 1, paren + 1, bracket, false, false);
        } else if c == ')' && bracket == 0 {
            if paren > 1 {
                lemma_scan_ir(s, k + 1, (paren - 1) as nat, bracket, false, false);
            }
        } else {
            lemma_scan_ir(s, k + 1, paren, bracket, false, false);
        }
    }
}

/// The index of the parenthesis that closes the embedded IR fragment whose
/// text starts at `from` (after its opening `\(`), or `None`.
pub fn scan_ir_exec(s: &Vec<char>, from: usize) -> (r: Option<usize>)
    requires
        from >= 2,
    ensures
        match r {
            Some(k) => scan_ir(s@, from as int, 1, 0, false, false) == k,
            None => scan_ir(s@, from as int, 1, 0, false, false) == -1,
        },
{
    let mut k = from;
    let mut paren: usize = 1;
    let mut bracket: usize = 0;
    let mut in_str = false;
    let mut esc = false;
    while k < s.len()
        invariant
            2 <= from <= k,
            k <= s@.len() || k == from,
            1 <= paren <= k - from + 1,
            bracket <= k - from,
            !in_str ==> !esc,
            scan_ir(s@, from as int, 1, 0, false, false) == scan_ir(
                s@,
                k as int,
                paren as nat,
                bracket as nat,
                in_str,
                esc,
            ),
        decreases s@.len() - k,
    {
        let c = s[k];
        if in_str {
            if esc {
                esc = false;
            } else if c == '\\' {
                esc = true;
            } else if c == '"' {
                in_str = false;
            }
        } else if c == '"' {
            in_str = true;
        } else if c == '[' {
            bracket += 1;
        } else if c == ']' && bracket > 0 {
            bracket -= 1;
        } else if c == '(' && bracket == 0 {
            assert(paren < k);
            paren += 1;
        } else if c == ')' && bracket == 0 {
            if paren <= 1 {
                return Some(k);
            }
            paren -= 1;
        }
        k += 1;
    }
    None
}

} // verus!
