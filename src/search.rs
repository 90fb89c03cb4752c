use vstd::prelude::*;

verus! {

/// `pattern` occurs in `buf` starting at index `i`.
pub open spec fn matches_at(buf: Seq<u8>, pattern: Seq<u8>, i: int) -> bool {
    &&& 0 <= i
    &&& i + pattern.len() <= buf.len()
    &&& forall|k: int| 0 <= k < pattern.len() ==> #[trigger] buf[i + k] == pattern[k]
}

/// The lowest index at or after `start` where a non-empty `pattern` occurs in `buf`.
pub open spec fn is_first_match(buf: Seq<u8>, pattern: Seq<u8>, start: int, i: int) -> bool {
    &&& start <= i
    &&& matches_at(buf, pattern, i)
    &&& forall|j: int| start <= j < i ==> !#[trigger] matches_at(buf, pattern, j)
}

fn matches_here(buf: &[u8], pattern: &[u8], i: usize) -> (r: bool)
    requires
        i + pattern@.len() <= buf@.len(),
    ensures
        r == matches_at(buf@, pattern@, i as int),
{
    let n = buf.len();
    let mut k: usize = 0;
    while k < pattern.len()
        invariant
            n == buf@.len(),
            k <= pattern@.len(),
            i + pattern@.len() <= buf@.len(),
            forall|m: int| 0 <= m < k ==> #[trigger] buf@[i + m] == pattern@[m],
        decreases pattern@.len() - k,
    {
        if buf[i + k] != pattern[k] {
            return false;
        }
        k += 1;
    }
    true
}

/// Finds the first occurrence of `pattern` in `buf` at or after `start_index`.
///
/// Returns `None` when the pattern is empty, when `start_index` is past the
/// last byte, or when the pattern does not occur there.
pub fn search(buf: &[u8], pattern: &[u8], start_index: usize) -> (r: Option<usize>)
    ensures
        pattern@.len() == 0 ==> r is None,
        start_index >= buf@.len() ==> r is None,
        pattern@.len() > buf@.len() ==> r is None,
        r matches Some(i) ==> is_first_match(buf@, pattern@, start_index as int, i as int),
        r is None ==> pattern@.len() == 0 || start_index >= buf@.len() || forall|j: int|
            start_index <= j ==> !#[trigger] matches_at(buf@, pattern@, j),
{
    if pattern.len() > buf.len() || pattern.len() == 0 || start_index >= buf.len() {
        return None;
    }
    let n = buf.len();
    let last = n - pattern.len();
    let mut i = start_index;
    while i <= last
        invariant
            n == buf@.len(),
            start_index <= i,
            last == buf@.len() - pattern@.len(),
            0 < pattern@.len() <= buf@.len(),
            forall|j: int| start_index <= j < i ==> !#[trigger] matches_at(buf@, pattern@, j),
        decreases last + 1 - i,
    {
        if matches_here(buf, pattern, i) {
            return Some(i);
        }
        i += 1;
    }
    None
}

} // verus!
