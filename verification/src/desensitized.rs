//! Masking the middle of a string: keep a prefix and a suffix, star the rest.

use vstd::prelude::*;

use crate::text::chars_to_string;
use vstd::string::StrSliceExecFns;

verus! {

/// Masking helpers for text shown to strangers.
pub struct Desensitized {}

impl Desensitized {
    /// Keeps the first `start_index` characters and the last `end_index`
    /// characters, and writes `'*'` over everything between them. Counts are
    /// in characters; the suffix must not be longer than the whole input.
    pub fn desensitize(input: &str, start_index: usize, end_index: usize) -> (r: String)
        requires
            end_index <= input@.len(),
        ensures
            r@.len() == input@.len(),
            forall|i: int|
                0 <= i < input@.len() ==> r@[i] == (if i < start_index || i >= input@.len()
                    - end_index {
                    input@[i]
                } else {
                    '*'
                }),
    {
        let n = input.unicode_len();
        let keep_from = n - end_index;
        let mut out: Vec<char> = Vec::new();
        let mut i: usize = 0;
        while i < n
            invariant
                i <= n,
                n == input@.len(),
                keep_from == n - end_index,
                out@.len() == i,
                forall|j: int|
                    0 <= j < i ==> out@[j] == (if j < start_index || j >= n - end_index {
                        input@[j]
                    } else {
                        '*'
                    }),
            decreases n - i,
        {
            let c = input.get_char(i);
            if i < start_index || i >= keep_from {
                out.push(c);
            } else {
                out.push('*');
            }
            i += 1;
        }
        chars_to_string(&out)
    }
}

} // verus!
