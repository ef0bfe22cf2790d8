//! Verified text helpers: substring search and whitespace trimming.
use vstd::prelude::*;

use vstd::string::{StringExecFns, StrSliceExecFns};

verus! {

/// Whether `n` occurs in `h` starting at `i`.
pub open spec fn contains_at(h: Seq<char>, n: Seq<char>, i: int) -> bool {
    &&& 0 <= i
    &&& i + n.len() <= h.len()
    &&& h.subrange(i, i + n.len()) == n
}

/// Whether `n` occurs anywhere in `h`.
pub open spec fn contains_sub(h: Seq<char>, n: Seq<char>) -> bool {
    exists|i: int| contains_at(h, n, i)
}

/// Substring search.
#[verifier::loop_isolation(false)]
pub fn str_contains(h: &str, n: &str) -> (r: bool)
    ensures
        r == contains_sub(h@, n@),
{
    let hl = h.unicode_len();
    let nl = n.unicode_len();
    if nl == 0 {
        proof {
            assert(h@.subrange(0, 0) =~= n@);
            assert(contains_at(h@, n@, 0));
        }
        return true;
    }
    if nl > hl {
        proof {
            assert forall|i: int| !contains_at(h@, n@, i) by {}
        }
        return false;
    }
    let mut i: usize = 0;
    while i <= hl - nl
        invariant
            0 <= i <= hl - nl + 1,
            forall|j: int| 0 <= j < i ==> !contains_at(h@, n@, j),
        decreases hl + 1 - i,
    {
        let mut k: usize = 0;
        while k < nl && h.get_char(i + k) == n.get_char(k)
            invariant
                0 <= k <= nl,
                i + nl <= hl,
                forall|m: int| 0 <= m < k ==> h@[i + m] == n@[m],
            decreases nl - k,
        {
            k = k + 1;
        }
        if k == nl {
            proof {
                assert(h@.subrange(i as int, i as int + n@.len()) =~= n@);
                assert(contains_at(h@, n@, i as int));
            }
            return true;
        }
        proof {
            assert(h@[i as int + k] != n@[k as int]);
            assert(!contains_at(h@, n@, i as int)) by {
                if contains_at(h@, n@, i as int) {
                    assert(h@.subrange(i as int, i as int + n@.len())[k as int] == n@[k as int]);
                }
            }
        }
        i = i + 1;
    }
    proof {
        assert forall|j: int| !contains_at(h@, n@, j) by {
            if contains_at(h@, n@, j) {
                assert(0 <= j <= hl - nl);
            }
        }
    }
    false
}

/// Whether `c` is blank for trimming purposes.
pub open spec fn is_ws(c: char) -> bool {
    c == ' ' || c == '\t' || c == '\n' || c == '\r'
}

/// `s` with leading and trailing blanks removed.
pub open spec fn trimmed(s: Seq<char>) -> Seq<char>
    decreases s.len(),
{
    if s.len() == 0 {
        s
    } else if is_ws(s[0]) {
        trimmed(s.drop_first())
    } else if is_ws(s.last()) {
        trimmed(s.drop_last())
    } else {
        s
    }
}

fn is_ws_exec(c: char) -> (r: bool)
    ensures
        r == is_ws(c),
{
    c == ' ' || c == '\t' || c == '\n' || c == '\r'
}

/// Removes leading and trailing blanks.
pub fn trim_str(s: &str) -> (r: String)
    ensures
        r@ == trimmed(s@),
    decreases s@.len(),
{
    let len = s.unicode_len();
    if len == 0 {
        return String::new();
    }
    if is_ws_exec(s.get_char(0)) {
        let rest = s.substring_char(1, len);
        proof {
            assert(rest@ =~= s@.drop_first());
        }
        return trim_str(rest);
    }
    if is_ws_exec(s.get_char(len - 1)) {
        let rest = s.substring_char(0, len - 1);
        proof {
            assert(rest@ =~= s@.drop_last());
        }
        return trim_str(rest);
    }
    s.to_owned()
}

/// The index of the first space at or after `from`; the length when there
/// is none.
pub open spec fn first_space(s: Seq<char>, from: int) -> int
    recommends
        0 <= from <= s.len(),
    decreases s.len() - from,
{
    if from >= s.len() {
        s.len() as int
    } else if s[from] == ' ' {
        from
    } else {
        first_space(s, from + 1)
    }
}

/// Finds the first space at or after `from`.
pub fn first_space_exec(s: &str, from: usize) -> (r: usize)
    requires
        from <= s@.len(),
    ensures
        r == first_space(s@, from as int),
        from <= r <= s@.len(),
    decreases s@.len() - from,
{
    let len = s.unicode_len();
    if from >= len {
        return len;
    }
    if s.get_char(from) == ' ' {
        return from;
    }
    first_space_exec(s, from + 1)
}


/// The index of the first line break at or after `from`; the length when
/// there is none.
pub open spec fn first_newline(s: Seq<char>, from: int) -> int
    recommends
        0 <= from <= s.len(),
    decreases s.len() - from,
{
    if from >= s.len() {
        s.len() as int
    } else if s[from] == '\n' {
        from
    } else {
        first_newline(s, from + 1)
    }
}

/// Finds the first line break at or after `from`.
pub fn first_newline_exec(s: &str, from: usize) -> (r: usize)
    requires
        from <= s@.len(),
    ensures
        r == first_newline(s@, from as int),
        from <= r <= s@.len(),
    decreases s@.len() - from,
{
    let len = s.unicode_len();
    if from >= len {
        return len;
    }
    if s.get_char(from) == '\n' {
        return from;
    }
    first_newline_exec(s, from + 1)
}

/// The views of a vector of strings.
pub open spec fn strs_view(v: Seq<String>) -> Seq<Seq<char>> {
    v.map(|i: int, s: String| s@)
}

/// The lines of `s` from `from` on that are not blank, in order, split at
/// line breaks and kept verbatim.
pub open spec fn non_blank_lines_from(s: Seq<char>, from: int) -> Seq<Seq<char>>
    recommends
        0 <= from <= s.len(),
    decreases s.len() - from,
        via non_blank_lines_from_decreases
{
    if !(0 <= from <= s.len()) {
        Seq::empty()
    } else {
        let p = first_newline(s, from);
        let line = s.subrange(from, p);
        let head: Seq<Seq<char>> = if trimmed(line).len() > 0 {
            seq![line]
        } else {
            Seq::empty()
        };
        if p >= s.len() {
            head
        } else {
            head + non_blank_lines_from(s, p + 1)
        }
    }
}

#[via_fn]
proof fn non_blank_lines_from_decreases(s: Seq<char>, from: int) {
    if 0 <= from <= s.len() {
        lemma_first_newline_bound(s, from);
    }
}

fn push_non_blank_lines(s: &str, from: usize, out: &mut Vec<String>)
    requires
        from <= s@.len(),
    ensures
        strs_view(final(out)@) == strs_view(old(out)@) + non_blank_lines_from(s@, from as int),
    decreases s@.len() - from,
{
    let len = s.unicode_len();
    let p = first_newline_exec(s, from);
    let line = s.substring_char(from, p);
    let t = trim_str(line);
    let keep = t.as_str().unicode_len() > 0;
    if keep {
        out.push(line.to_owned());
    }
    proof {
        lemma_first_newline_bound(s@, from as int);
    }
    if p < len {
        push_non_blank_lines(s, p + 1, out);
    }
    proof {
        assert(strs_view(out@) =~= strs_view(old(out)@) + non_blank_lines_from(s@, from as int));
    }
}

proof fn lemma_first_newline_bound(s: Seq<char>, from: int)
    requires
        0 <= from <= s.len(),
    ensures
        from <= first_newline(s, from) <= s.len(),
    decreases s.len() - from,
{
    if from < s.len() && s[from] != '\n' {
        lemma_first_newline_bound(s, from + 1);
    }
}

/// Splits at line breaks and keeps the lines that are not blank, verbatim.
pub fn non_blank_lines(content: &str) -> (r: Vec<String>)
    ensures
        strs_view(r@) == non_blank_lines_from(content@, 0),
{
    let mut out: Vec<String> = Vec::new();
    push_non_blank_lines(content, 0, &mut out);
    proof {
        assert(strs_view(out@) =~= non_blank_lines_from(content@, 0));
    }
    out
}

} // verus!
