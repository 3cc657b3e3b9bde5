//! Code fence tracking for directive parsing.
//!
//! Tracks whether line-by-line processing is inside a fenced code block, so
//! that directive syntax (`:::`) inside code is left alone. A fence opens with
//! three or more backticks or tildes and closes with a line of at least as
//! many of the same character, optionally followed by white space.

use vstd::prelude::*;
use crate::text::{chars_of, is_space, is_space_spec, skip_spaces, trim_start_seq};

verus! {

/// End of the run of `c` in `t` that continues from `i`.
pub open spec fn run_from(t: Seq<char>, c: char, i: int) -> int
    decreases t.len() - i,
{
    if 0 <= i < t.len() && t[i] == c {
        run_from(t, c, i + 1)
    } else {
        i
    }
}

/// Number of leading copies of `c` in `t`.
pub open spec fn run_len(t: Seq<char>, c: char) -> int {
    run_from(t, c, 0)
}

/// The fence a trimmed line opens, if any: its character and length.
pub open spec fn opening_fence(t: Seq<char>) -> Option<(char, nat)> {
    if t.len() > 0 && (t[0] == '`' || t[0] == '~') && run_len(t, t[0]) >= 3 {
        Some((t[0], run_len(t, t[0]) as nat))
    } else {
        None
    }
}

/// Whether a trimmed line closes a fence of `c` of length `n`: at least `n`
/// copies of `c`, then only white space.
pub open spec fn closes_fence(t: Seq<char>, c: char, n: nat) -> bool {
    &&& t.len() > 0
    &&& t[0] == c
    &&& run_len(t, c) >= n
    &&& forall|i: int| run_len(t, c) <= i < t.len() ==> is_space_spec(#[trigger] t[i])
}

/// The fence state after `line`: `None` outside a fence, else the open fence.
pub open spec fn fence_step(st: Option<(char, nat)>, line: Seq<char>) -> Option<(char, nat)> {
    let t = trim_start_seq(line);
    match st {
        Some((c, n)) => if closes_fence(t, c, n) {
            None
        } else {
            st
        },
        None => opening_fence(t),
    }
}

/// Tracks code fence state during line-by-line processing.
pub struct FenceTracker {
    /// Character of the open fence (backtick or tilde).
    fence_char: Option<char>,
    /// Length of the opening fence (minimum length of the closing one).
    fence_len: usize,
}

impl View for FenceTracker {
    type V = Option<(char, nat)>;

    closed spec fn view(&self) -> Option<(char, nat)> {
        match self.fence_char {
            Some(c) => Some((c, self.fence_len as nat)),
            None => None,
        }
    }
}

/// Number of leading copies of `c` in `v`.
fn count_run(v: &[char], c: char) -> (r: usize)
    ensures
        r == run_len(v@, c),
        r <= v@.len(),
{
    let mut k: usize = 0;
    while k < v.len() && v[k] == c
        invariant
            k <= v@.len(),
            run_from(v@, c, k as int) == run_len(v@, c),
        decreases v.len() - k,
    {
        k = k + 1;
    }
    k
}

/// The fence a trimmed line opens, if any.
pub fn detect_fence(t: &[char]) -> (r: Option<(char, usize)>)
    ensures
        match r {
            Some((c, n)) => opening_fence(t@) == Some((c, n as nat)),
            None => opening_fence(t@) is None,
        },
{
    if t.len() == 0 {
        return None;
    }
    let first = t[0];
    if first != '`' && first != '~' {
        return None;
    }
    let count = count_run(t, first);
    if count >= 3 {
        Some((first, count))
    } else {
        None
    }
}

/// Whether a trimmed line closes a fence of `c` of length `min_len`.
pub fn is_fence_line(t: &[char], c: char, min_len: usize) -> (r: bool)
    ensures
        r == closes_fence(t@, c, min_len as nat),
{
    if t.len() == 0 || t[0] != c {
        return false;
    }
    let count = count_run(t, c);
    if count < min_len {
        return false;
    }
    let mut i = count;
    while i < t.len()
        invariant
            count <= i <= t@.len(),
            count == run_len(t@, c),
            forall|m: int| count <= m < i ==> is_space_spec(#[trigger] t@[m]),
        decreases t.len() - i,
    {
        if !is_space(t[i]) {
            return false;
        }
        i = i + 1;
    }
    true
}

impl FenceTracker {
    /// Create a new fence tracker, outside any fence.
    pub fn new() -> (r: Self)
        ensures
            r@ is None,
    {
        FenceTracker { fence_char: None, fence_len: 0 }
    }

    /// Check if currently inside a fenced code block.
    pub fn in_fence(&self) -> (r: bool)
        ensures
            r == self@ is Some,
    {
        self.fence_char.is_some()
    }

    /// Update the fence state with a line. Returns `true` if the line is a
    /// fence marker (opening or closing), that is, exactly when it changes
    /// whether the tracker is inside a fence.
    pub fn update(&mut self, line: &str) -> (r: bool)
        ensures
            final(self)@ == fence_step(old(self)@, line@),
            r == (old(self)@ is Some != final(self)@ is Some),
    {
        let v = chars_of(line);
        let a = skip_spaces(v.as_slice(), 0, v.len());
        let t = crate::text::sub_vec(v.as_slice(), a, v.len());
        assert(t@ == trim_start_seq(line@));
        match self.fence_char {
            Some(c) => {
                if is_fence_line(t.as_slice(), c, self.fence_len) {
                    self.fence_char = None;
                    self.fence_len = 0;
                    return true;
                }
                false
            },
            None => {
                match detect_fence(t.as_slice()) {
                    Some((ch, len)) => {
                        self.fence_char = Some(ch);
                        self.fence_len = len;
                        true
                    },
                    None => false,
                }
            },
        }
    }
}


impl Default for FenceTracker {
    fn default() -> (r: Self)
        ensures
            r@ is None,
    {
        FenceTracker::new()
    }
}

} // verus!
