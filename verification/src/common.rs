//! Splitting helpers used by the tokenizer: each cuts a string at the
//! end of a leading run of characters of one class.

use vstd::prelude::*;
use vstd::string::StrSliceExecFns;
use crate::text::{
    run_end, numeric_p, alnum_p, not_in_p, lemma_run_end, chars_of, scan_end_numeric,
    scan_end_alnum, scan_end_not_in,
};

verus! {

/// Splits at the end of the leading run of numeric characters.
pub fn split_digit(s: &str) -> (r: (&str, &str))
    ensures
        r.0@ == s@.subrange(0, run_end(s@, 0, numeric_p())),
        r.1@ == s@.subrange(run_end(s@, 0, numeric_p()), s@.len() as int),
{
    let v = chars_of(s);
    let k = scan_end_numeric(&v, 0);
    proof {
        lemma_run_end(v@, 0, numeric_p());
    }
    let n = s.unicode_len();
    (s.substring_char(0, k), s.substring_char(k, n))
}

/// Splits at the end of the leading run of alphanumeric characters.
pub fn split_alphanumeric(s: &str) -> (r: (&str, &str))
    ensures
        r.0@ == s@.subrange(0, run_end(s@, 0, alnum_p())),
        r.1@ == s@.subrange(run_end(s@, 0, alnum_p()), s@.len() as int),
{
    let v = chars_of(s);
    let k = scan_end_alnum(&v, 0);
    proof {
        lemma_run_end(v@, 0, alnum_p());
    }
    let n = s.unicode_len();
    (s.substring_char(0, k), s.substring_char(k, n))
}

/// Splits at the first character of `s` that occurs in `t`.
pub fn split_specific<'a>(s: &'a str, t: &'a str) -> (r: (&'a str, &'a str))
    ensures
        r.0@ == s@.subrange(0, run_end(s@, 0, not_in_p(t@))),
        r.1@ == s@.subrange(run_end(s@, 0, not_in_p(t@)), s@.len() as int),
{
    let v = chars_of(s);
    let tv = chars_of(t);
    let k = scan_end_not_in(&v, 0, &tv);
    proof {
        lemma_run_end(v@, 0, not_in_p(t@));
    }
    let n = s.unicode_len();
    (s.substring_char(0, k), s.substring_char(k, n))
}

} // verus!
