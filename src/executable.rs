use vstd::prelude::*;
use vstd::slice::slice_to_vec;

use crate::error::AppError;
use crate::search::{is_first_match, matches_at, search};
use crate::text::{
    decimal_bytes, digit_value, is_ascii_whitespace, lemma_decimal_bytes, lemma_decimal_round_trip, parse_unsigned, trim, trim_end,
    trim_start,
};

verus! {

/// Length of the run that marks the placeholder span in a template.
pub const PLACEHOLDER_LEN: usize = 1024;

/// The byte repeated to mark the placeholder span (`a`).
pub const PLACEHOLDER_BYTE: u8 = 0x61;

/// The byte that fills the part of the span a shorter value leaves (space).
pub const FILL_BYTE: u8 = 0x20;

pub open spec fn placeholder_pattern() -> Seq<u8> {
    Seq::new(PLACEHOLDER_LEN as nat, |i: int| PLACEHOLDER_BYTE)
}

/// `data` with `value` written at `start` and the rest of `[start, end)` blanked.
pub open spec fn stamp(data: Seq<u8>, start: int, end: int, value: Seq<u8>) -> Seq<u8> {
    Seq::new(
        data.len(),
        |i: int|
            if start <= i < start + value.len() {
                value[i - start]
            } else if start + value.len() <= i < end {
                FILL_BYTE
            } else {
                data[i]
            },
    )
}

/// The sentinel run that marks the placeholder span.
pub fn placeholder() -> (r: Vec<u8>)
    ensures
        r@ == placeholder_pattern(),
{
    let mut v: Vec<u8> = Vec::new();
    let mut i: usize = 0;
    while i < PLACEHOLDER_LEN
        invariant
            i <= PLACEHOLDER_LEN,
            v@.len() == i,
            forall|k: int| 0 <= k < i ==> v@[k] == PLACEHOLDER_BYTE,
        decreases PLACEHOLDER_LEN - i,
    {
        v.push(PLACEHOLDER_BYTE);
        i += 1;
    }
    assert(v@ =~= placeholder_pattern());
    v
}

/// A binary template with a located placeholder span `[key_start, key_end)`.
#[derive(Debug, Default, Clone)]
pub struct Executable {
    /// The raw bytes of the template.
    pub data: Vec<u8>,
    pub filename: String,
    /// The file name before the extension.
    pub name: String,
    /// The extension, possibly empty.
    pub extension: String,
    pub key_start: usize,
    pub key_end: usize,
}

impl Executable {
    pub open spec fn wf(&self) -> bool {
        self.key_start <= self.key_end <= self.data@.len()
    }

    /// How many bytes a value may take in this template.
    pub open spec fn capacity(&self) -> int {
        self.key_end - self.key_start
    }

    /// Finds the first occurrence of `pattern` in `buf` at or after `start_index`.
    pub fn search_pattern(buf: &[u8], pattern: &[u8], start_index: usize) -> (r: Option<usize>)
        ensures
            pattern@.len() == 0 ==> r is None,
            start_index >= buf@.len() ==> r is None,
            pattern@.len() > buf@.len() ==> r is None,
            r matches Some(i) ==> is_first_match(buf@, pattern@, start_index as int, i as int),
            r is None ==> pattern@.len() == 0 || start_index >= buf@.len() || forall|j: int|
                start_index <= j ==> !#[trigger] matches_at(buf@, pattern@, j),
    {
        search(buf, pattern, start_index)
    }

    /// Builds a template from its bytes, locating the first placeholder run.
    pub fn from_template(data: Vec<u8>, filename: String, name: String, extension: String) -> (r:
        Result<Executable, AppError>)
        ensures
            match r {
                Ok(e) => {
                    &&& e.wf()
                    &&& e.data@ == data@
                    &&& e.filename@ == filename@
                    &&& e.name@ == name@
                    &&& e.extension@ == extension@
                    &&& is_first_match(data@, placeholder_pattern(), 0, e.key_start as int)
                    &&& e.key_end == e.key_start + PLACEHOLDER_LEN
                },
                Err(err) => {
                    &&& err == (AppError::KeyPatternNotFound { name: filename })
                    &&& forall|j: int| !#[trigger] matches_at(data@, placeholder_pattern(), j)
                },
            },
    {
        let pattern = placeholder();
        let size = data.len();
        match search(data.as_slice(), pattern.as_slice(), 0) {
            Some(key_start) => {
                assert(key_start + PLACEHOLDER_LEN <= size);
                Ok(Executable {
                    data,
                    filename,
                    name,
                    extension,
                    key_start,
                    key_end: key_start + PLACEHOLDER_LEN,
                })
            },
            None => {
                assert forall|j: int| !#[trigger] matches_at(data@, placeholder_pattern(), j) by {
                    if 0 <= j && j + PLACEHOLDER_LEN <= data@.len() {
                        assert(0 <= j);
                    }
                }
                Err(AppError::KeyPatternNotFound { name: filename })
            },
        }
    }

    /// A copy of the template with `new_key` written into the placeholder span
    /// and the rest of the span filled with spaces.
    pub fn with_key(&self, new_key: &[u8]) -> (r: Result<Vec<u8>, AppError>)
        requires
            self.wf(),
        ensures
            new_key@.len() > self.capacity() ==> r == Err::<Vec<u8>, AppError>(
                AppError::ValueTooLong {
                    length: new_key@.len() as usize,
                    capacity: (self.key_end - self.key_start) as usize,
                },
            ),
            new_key@.len() <= self.capacity() ==> r is Ok,
            r matches Ok(out) ==> {
                let s = self.key_start as int;
                let e = self.key_end as int;
                let n = new_key@.len() as int;
                &&& out@ == stamp(self.data@, s, e, new_key@)
                &&& out@.len() == self.data@.len()
                &&& forall|i: int| 0 <= i < s ==> out@[i] == self.data@[i]
                &&& forall|i: int| e <= i < out@.len() ==> out@[i] == self.data@[i]
                &&& out@.subrange(s, s + n) == new_key@
                &&& forall|i: int| s + n <= i < e ==> out@[i] == FILL_BYTE
            },
    {
        let capacity = self.key_end - self.key_start;
        if new_key.len() > capacity {
            return Err(AppError::ValueTooLong { length: new_key.len(), capacity });
        }
        let ghost s = self.key_start as int;
        let ghost e = self.key_end as int;
        let ghost n = new_key@.len() as int;
        let mut data = slice_to_vec(self.data.as_slice());
        let mut i: usize = 0;
        while i < new_key.len()
            invariant
                self.wf(),
                n == new_key@.len() <= e - s,
                s == self.key_start,
                e == self.key_end,
                i <= n,
                data@.len() == self.data@.len(),
                forall|k: int|
                    0 <= k < data@.len() ==> #[trigger] data@[k] == if s <= k < s + i {
                        new_key@[k - s]
                    } else {
                        self.data@[k]
                    },
            decreases n - i,
        {
            data.set(self.key_start + i, new_key[i]);
            i += 1;
        }
        let mut j: usize = self.key_start + new_key.len();
        while j < self.key_end
            invariant
                self.wf(),
                n == new_key@.len() <= e - s,
                s == self.key_start,
                e == self.key_end,
                s + n <= j <= e,
                data@.len() == self.data@.len(),
                forall|k: int|
                    0 <= k < data@.len() ==> #[trigger] data@[k] == if s <= k < s + n {
                        new_key@[k - s]
                    } else if s + n <= k < j {
                        FILL_BYTE
                    } else {
                        self.data@[k]
                    },
            decreases e - j,
        {
            data.set(j, FILL_BYTE);
            j += 1;
        }
        assert(data@ =~= stamp(self.data@, s, e, new_key@));
        assert(data@.subrange(s, s + n) =~= new_key@);
        Ok(data)
    }
}

/// The catalog entry shown to clients for one template.
#[derive(Debug, Clone)]
pub struct ExecutableJson {
    pub id: String,
    pub size: usize,
    pub filename: String,
}

proof fn lemma_trim_end_fill(d: Seq<u8>, k: nat)
    requires
        d.len() > 0,
        !is_ascii_whitespace(d.last()),
    ensures
        trim_end(d + Seq::new(k, |i: int| FILL_BYTE)) == d,
    decreases k,
{
    let t = d + Seq::new(k, |i: int| FILL_BYTE);
    if k == 0 {
        assert(t =~= d);
    } else {
        assert(t.drop_last() =~= d + Seq::new((k - 1) as nat, |i: int| FILL_BYTE));
        lemma_trim_end_fill(d, (k - 1) as nat);
    }
}

/// A token stamped into a template as decimal text reads back as the same
/// token from the placeholder span, once the blank fill is trimmed.
pub proof fn lemma_stamped_token_reads_back(data: Seq<u8>, start: int, end: int, token: u32)
    requires
        0 <= start <= end <= data.len(),
        decimal_bytes(token as nat).len() <= end - start,
    ensures
        parse_unsigned(
            trim(stamp(data, start, end, decimal_bytes(token as nat)).subrange(start, end)),
            10,
        ) == Some(token),
{
    let d = decimal_bytes(token as nat);
    lemma_decimal_round_trip(token);
    lemma_decimal_bytes(token as nat);
    assert(digit_value(d[0]) < 10);
    assert(digit_value(d[d.len() - 1]) < 10);
    let k = (end - start - d.len()) as nat;
    let region = stamp(data, start, end, d).subrange(start, end);
    assert(region =~= d + Seq::new(k, |i: int| FILL_BYTE));
    assert(!is_ascii_whitespace(region[0]));
    assert(trim_start(region) == region);
    lemma_trim_end_fill(d, k);
}

} // verus!
