//! Matching a string against a `like` pattern.
use vstd::prelude::*;
use crate::ast::PatternElem;
use crate::text::chars_of;

verus! {

/// Whether the text from position `i` on matches the pattern from position
/// `j` on. A character of the pattern matches itself; a wildcard matches any
/// run of characters, the empty one too.
pub open spec fn matches_from(text: Seq<char>, pattern: Seq<PatternElem>, i: int, j: int) -> bool
    decreases pattern.len() - j, text.len() - i,
{
    if i < 0 || j < 0 || i > text.len() {
        false
    } else if j >= pattern.len() {
        i == text.len()
    } else {
        match pattern[j] {
            PatternElem::Char(c) => i < text.len() && text[i] == c && matches_from(
                text,
                pattern,
                i + 1,
                j + 1,
            ),
            PatternElem::Wildcard => matches_from(text, pattern, i, j + 1) || (i < text.len()
                && matches_from(text, pattern, i + 1, j)),
        }
    }
}

/// Whether `text` matches `pattern` as a whole.
pub open spec fn wildcard_match(text: Seq<char>, pattern: Seq<PatternElem>) -> bool {
    matches_from(text, pattern, 0, 0)
}

fn next_row(text: &Vec<char>, pattern: &Vec<PatternElem>, j: usize, row: &Vec<bool>) -> (r: Vec<
    bool,
>)
    requires
        j < pattern.len(),
        text.len() < usize::MAX,
        row.len() == text.len() + 1,
        forall|k: int| 0 <= k <= text.len() ==> #[trigger] row[k] == matches_from(
            text@,
            pattern@,
            k,
            j + 1,
        ),
    ensures
        r.len() == text.len() + 1,
        forall|k: int| 0 <= k <= text.len() ==> #[trigger] r[k] == matches_from(
            text@,
            pattern@,
            k,
            j as int,
        ),
{
    let n = text.len();
    let mut next: Vec<bool> = Vec::new();
    let mut k: usize = 0;
    while k <= n
        invariant
            k <= n + 1,
            n == text.len(),
            n < usize::MAX,
            next.len() == k,
        decreases n + 1 - k,
    {
        next.push(false);
        k += 1;
    }
    let mut i: usize = n + 1;
    while i > 0
        invariant
            i <= n + 1,
            n == text.len(),
            j < pattern.len(),
            next.len() == n + 1,
            row.len() == n + 1,
            forall|k: int| 0 <= k <= n ==> #[trigger] row[k] == matches_from(
                text@,
                pattern@,
                k,
                j + 1,
            ),
            forall|k: int| i <= k <= n ==> #[trigger] next[k] == matches_from(
                text@,
                pattern@,
                k,
                j as int,
            ),
        decreases i,
    {
        i -= 1;
        let here = match pattern[j] {
            PatternElem::Char(c) => i < n && text[i] == c && row[i + 1],
            PatternElem::Wildcard => row[i] || (i < n && next[i + 1]),
        };
        next.set(i, here);
    }
    next
}

/// Whether `text` matches `pattern` as a whole.
pub fn like(text: &str, pattern: &Vec<PatternElem>) -> (r: bool)
    ensures
        r == wildcard_match(text@, pattern@),
{
    let cs = chars_of(text);
    let n = cs.len();
    if n == usize::MAX {
        // a text of that length cannot be held in memory
        return like_slow(&cs, pattern, 0, 0);
    }
    let mut row: Vec<bool> = Vec::new();
    let mut k: usize = 0;
    while k <= n
        invariant
            k <= n + 1,
            n == cs.len(),
            n < usize::MAX,
            row.len() == k,
            forall|m: int| 0 <= m < k ==> #[trigger] row[m] == (m == n),
        decreases n + 1 - k,
    {
        row.push(k == n);
        k += 1;
    }
    let mut j: usize = pattern.len();
    while j > 0
        invariant
            j <= pattern.len(),
            n == cs.len(),
            n < usize::MAX,
            row.len() == n + 1,
            forall|m: int| 0 <= m <= n ==> #[trigger] row[m] == matches_from(
                cs@,
                pattern@,
                m,
                j as int,
            ),
        decreases j,
    {
        j -= 1;
        row = next_row(&cs, pattern, j, &row);
    }
    row[0]
}

fn like_slow(text: &Vec<char>, pattern: &Vec<PatternElem>, i: usize, j: usize) -> (r: bool)
    requires
        i <= text.len(),
    ensures
        r == matches_from(text@, pattern@, i as int, j as int),
    decreases pattern.len() - j, text.len() - i,
{
    if j >= pattern.len() {
        i == text.len()
    } else {
        match pattern[j] {
            PatternElem::Char(c) => i < text.len() && text[i] == c && like_slow(
                text,
                pattern,
                i + 1,
                j + 1,
            ),
            PatternElem::Wildcard => like_slow(text, pattern, i, j + 1) || (i < text.len()
                && like_slow(text, pattern, i + 1, j)),
        }
    }
}

} // verus!
