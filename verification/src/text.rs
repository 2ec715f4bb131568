//! Character classification and small string utilities shared by the
//! tokenizer, the evaluator and the shell.

use vstd::prelude::*;
use vstd::std_specs::iter::IteratorSpec;

verus! {

broadcast use vstd::string::next_postcondition, vstd::string::axiom_spec_iter;

/// The Unicode `White_Space` code points, written out.
pub open spec fn is_ws_char(c: char) -> bool {
    let u = c as u32;
    u == 0x09 || u == 0x0A || u == 0x0B || u == 0x0C || u == 0x0D || u == 0x20
        || u == 0x85 || u == 0xA0 || u == 0x1680
        || (0x2000 <= u && u <= 0x200A)
        || u == 0x2028 || u == 0x2029 || u == 0x202F || u == 0x205F || u == 0x3000
}

pub fn char_is_ws(c: char) -> (b: bool)
    ensures
        b == is_ws_char(c),
{
    let u = c as u32;
    u == 0x09 || u == 0x0A || u == 0x0B || u == 0x0C || u == 0x0D || u == 0x20
        || u == 0x85 || u == 0xA0 || u == 0x1680
        || (0x2000 <= u && u <= 0x200A)
        || u == 0x2028 || u == 0x2029 || u == 0x202F || u == 0x205F || u == 0x3000
}

pub open spec fn is_ascii_digit_char(c: char) -> bool {
    0x30 <= c as u32 && c as u32 <= 0x39
}

pub open spec fn is_ascii_alnum_char(c: char) -> bool {
    is_ascii_digit_char(c)
        || (0x41 <= c as u32 && c as u32 <= 0x5A)
        || (0x61 <= c as u32 && c as u32 <= 0x7A)
}

/// Which characters beyond ASCII count as alphanumeric; fixed by Unicode,
/// too large to spell out, so it is only named here.
pub uninterp spec fn alnum_ext(c: char) -> bool;

/// Alphanumeric in the sense of `char::is_alphanumeric`.
pub open spec fn is_alnum_char(c: char) -> bool {
    if (c as u32) < 0x80 {
        is_ascii_alnum_char(c)
    } else {
        alnum_ext(c)
    }
}

/// Relies on `char::is_alphanumeric`: on ASCII it holds exactly of letters
/// and digits; beyond ASCII it is a fixed function of the character,
/// here named `alnum_ext`.
#[verifier::external_body]
pub fn char_is_alnum(c: char) -> (b: bool)
    ensures
        b == is_alnum_char(c),
        (c as u32) >= 0x80 ==> b == alnum_ext(c),
{
    c.is_alphanumeric()
}

/// Which characters beyond ASCII count as numeric; fixed by Unicode,
/// too large to spell out, so it is only named here.
pub uninterp spec fn numeric_ext(c: char) -> bool;

/// Numeric in the sense of `char::is_numeric`.
pub open spec fn is_numeric_char(c: char) -> bool {
    if (c as u32) < 0x80 {
        is_ascii_digit_char(c)
    } else {
        numeric_ext(c)
    }
}

/// Relies on `char::is_numeric`: on ASCII it holds exactly of the decimal
/// digits; beyond ASCII it is a fixed function of the character, here
/// named `numeric_ext`.
#[verifier::external_body]
pub fn char_is_numeric(c: char) -> (b: bool)
    ensures
        b == is_numeric_char(c),
        (c as u32) >= 0x80 ==> b == numeric_ext(c),
{
    c.is_numeric()
}

pub fn char_is_digit(c: char) -> (b: bool)
    ensures
        b == is_ascii_digit_char(c),
{
    let u = c as u32;
    0x30 <= u && u <= 0x39
}

/// The characters of a string slice, in order.
pub fn chars_of(s: &str) -> (v: Vec<char>)
    ensures
        v@ == s@,
{
    let mut it = s.chars();
    let mut v: Vec<char> = Vec::new();
    loop
        invariant
            v@ + it.remaining() == s@,
            it.decrease() is Some,
        ensures
            v@ == s@,
        decreases it.decrease()->0,
    {
        match it.next() {
            Some(c) => {
                v.push(c);
            },
            None => {
                proof {
                    assert(v@ + it.remaining() == s@);
                    assert(v@ =~= s@);
                }
                break ;
            },
        }
    }
    v
}

/// Relies on `String`'s `FromIterator` implementation: collecting
/// characters yields the string of exactly those characters in order.
#[verifier::external_body]
pub fn string_from_chars(v: &Vec<char>) -> (s: String)
    ensures
        s@ == v@,
{
    v.iter().collect()
}

pub fn chars_eq(a: &Vec<char>, b: &Vec<char>) -> (r: bool)
    ensures
        r == (a@ == b@),
{
    if a.len() != b.len() {
        assert(a@.len() != b@.len());
        return false;
    }
    let mut i: usize = 0;
    while i < a.len()
        invariant
            i <= a.len(),
            a@.len() == b@.len(),
            forall|j: int| 0 <= j < i ==> a@[j] == b@[j],
        decreases a.len() - i,
    {
        if a[i] != b[i] {
            return false;
        }
        i += 1;
    }
    proof {
        assert(a@ =~= b@);
    }
    true
}

pub fn str_eq(a: &str, b: &str) -> (r: bool)
    ensures
        r == (a@ == b@),
{
    let av = chars_of(a);
    let bv = chars_of(b);
    chars_eq(&av, &bv)
}

pub open spec fn digit_char(d: int) -> char {
    if d == 0 {
        '0'
    } else if d == 1 {
        '1'
    } else if d == 2 {
        '2'
    } else if d == 3 {
        '3'
    } else if d == 4 {
        '4'
    } else if d == 5 {
        '5'
    } else if d == 6 {
        '6'
    } else if d == 7 {
        '7'
    } else if d == 8 {
        '8'
    } else {
        '9'
    }
}

pub open spec fn digit_val(c: char) -> int {
    c as u32 - 0x30
}

/// The decimal numeral of a non-negative integer, most significant digit
/// first.
pub open spec fn dec_of(n: nat) -> Seq<char>
    decreases n,
{
    if n < 10 {
        seq![digit_char(n as int)]
    } else {
        dec_of(n / 10).push(digit_char((n % 10) as int))
    }
}

/// The value of a digit sequence read as a decimal numeral.
pub open spec fn dec_val(s: Seq<char>) -> int
    decreases s.len(),
{
    if s.len() == 0 {
        0
    } else {
        dec_val(s.drop_last()) * 10 + digit_val(s.last())
    }
}

pub proof fn lemma_dec_of(n: nat)
    ensures
        dec_of(n).len() >= 1,
        dec_val(dec_of(n)) == n,
        forall|i: int| 0 <= i < dec_of(n).len() ==> is_ascii_digit_char(#[trigger] dec_of(n)[i]),
        forall|i: int| 0 <= i < dec_of(n).len() ==> !is_ws_char(#[trigger] dec_of(n)[i]),
        forall|i: int|
            0 <= i < dec_of(n).len() ==> is_alnum_char(#[trigger] dec_of(n)[i]) && is_numeric_char(
                dec_of(n)[i],
            ),
    decreases n,
{
    if n < 10 {
        let s = dec_of(n);
        assert(s =~= seq![digit_char(n as int)]);
        assert(s.len() == 1);
        assert(s.last() == digit_char(n as int));
        assert(s.drop_last().len() == 0);
        assert(dec_val(s.drop_last()) == 0);
        assert(dec_val(s) == digit_val(digit_char(n as int)));
        assert(digit_val(digit_char(n as int)) == n);
    } else {
        lemma_dec_of(n / 10);
        let s = dec_of(n);
        let p = dec_of(n / 10);
        assert(s == p.push(digit_char((n % 10) as int)));
        assert(s.drop_last() =~= p);
        assert(s.last() == digit_char((n % 10) as int));
        assert(digit_val(s.last()) == n % 10);
        assert(dec_val(s) == dec_val(p) * 10 + n % 10);
        assert(n / 10 * 10 + n % 10 == n) by {
            vstd::arithmetic::div_mod::lemma_fundamental_div_mod(n as int, 10);
        }
        assert(dec_val(s) == n);
    }
}

/// The decimal text of a signed 32-bit integer.
pub open spec fn dec_i32(x: int) -> Seq<char> {
    if x < 0 {
        seq!['-'] + dec_of((-x) as nat)
    } else {
        dec_of(x as nat)
    }
}

fn digit_to_char(d: u64) -> (c: char)
    requires
        d < 10,
    ensures
        c == digit_char(d as int),
{
    if d == 0 {
        '0'
    } else if d == 1 {
        '1'
    } else if d == 2 {
        '2'
    } else if d == 3 {
        '3'
    } else if d == 4 {
        '4'
    } else if d == 5 {
        '5'
    } else if d == 6 {
        '6'
    } else if d == 7 {
        '7'
    } else if d == 8 {
        '8'
    } else {
        '9'
    }
}

fn u64_to_chars(m0: u64) -> (v: Vec<char>)
    ensures
        v@ == dec_of(m0 as nat),
{
    let mut rev: Vec<char> = Vec::new();
    let mut m: u64 = m0;
    loop
        invariant_except_break
            (m > 0 && dec_of(m0 as nat) =~= dec_of(m as nat) + rev@.reverse()) || (m == 0 && m0
                == 0 && rev@.len() == 0),
        ensures
            dec_of(m0 as nat) =~= rev@.reverse(),
            rev@.len() >= 1,
        decreases m, (if rev@.len() == 0 { 1int } else { 0int }),
    {
        let ghost old_m = m as nat;
        let ghost old_rev = rev@;
        let d = m % 10;
        let c = digit_to_char(d);
        rev.push(c);
        m = m / 10;
        proof {
            assert(old_rev.push(c) =~= rev@);
            assert(rev@.reverse() =~= seq![c] + old_rev.reverse());
            if old_m < 10 {
                assert(m == 0);
                assert(dec_of(old_m) =~= seq![c]);
                if old_m > 0 {
                    assert(dec_of(m0 as nat) =~= dec_of(old_m) + old_rev.reverse());
                } else {
                    assert(old_rev.len() == 0 && m0 == 0);
                    assert(dec_of(m0 as nat) =~= seq![c]);
                }
                assert(dec_of(m0 as nat) =~= rev@.reverse());
            } else {
                assert(m >= 1);
                assert(dec_of(m0 as nat) =~= dec_of(old_m) + old_rev.reverse());
                assert(dec_of(old_m) == dec_of(old_m / 10).push(c));
                assert(dec_of(old_m) =~= dec_of(m as nat) + seq![c]);
                assert(dec_of(m0 as nat) =~= dec_of(m as nat) + rev@.reverse());
            }
        }
        if m == 0 {
            break ;
        }
    }
    let n = rev.len();
    let mut v: Vec<char> = Vec::new();
    let mut i: usize = 0;
    while i < n
        invariant
            i <= n,
            n == rev@.len(),
            v@ =~= rev@.reverse().subrange(0, i as int),
        decreases n - i,
    {
        let c = rev[n - 1 - i];
        v.push(c);
        proof {
            assert(rev@.reverse()[i as int] == rev@[n - 1 - i]);
            assert(v@ =~= rev@.reverse().subrange(0, i as int + 1));
        }
        i += 1;
    }
    proof {
        assert(v@ =~= rev@.reverse());
    }
    v
}

/// The decimal text of `x`, as characters.
pub fn i32_to_chars(x: i32) -> (v: Vec<char>)
    ensures
        v@ == dec_i32(x as int),
{
    if x < 0 {
        let m: u64 = (-(x as i64)) as u64;
        let digits = u64_to_chars(m);
        let mut v: Vec<char> = Vec::new();
        v.push('-');
        let mut i: usize = 0;
        while i < digits.len()
            invariant
                i <= digits@.len(),
                v@ =~= seq!['-'] + digits@.subrange(0, i as int),
            decreases digits@.len() - i,
        {
            let c = digits[i];
            v.push(c);
            proof {
                assert(v@ =~= seq!['-'] + digits@.subrange(0, i as int + 1));
            }
            i += 1;
        }
        proof {
            assert(digits@.subrange(0, digits@.len() as int) =~= digits@);
            assert(v@ =~= seq!['-'] + digits@);
        }
        v
    } else {
        u64_to_chars(x as u64)
    }
}

/// The decimal text of `x`, as a `String`.
pub fn i32_to_string(x: i32) -> (s: String)
    ensures
        s@ == dec_i32(x as int),
{
    let v = i32_to_chars(x);
    string_from_chars(&v)
}

/// Where the run of characters satisfying `p` that starts at `from` ends:
/// the first position at or after `from` whose character fails `p`, or the
/// length of `s` if every character from `from` on satisfies `p`.
pub open spec fn run_end(s: Seq<char>, from: int, p: spec_fn(char) -> bool) -> int
    decreases (if from < s.len() { s.len() - from } else { 0 }),
{
    if 0 <= from < s.len() {
        if p(s[from]) {
            run_end(s, from + 1, p)
        } else {
            from
        }
    } else {
        s.len() as int
    }
}

pub proof fn lemma_run_end(s: Seq<char>, from: int, p: spec_fn(char) -> bool)
    requires
        0 <= from <= s.len(),
    ensures
        from <= run_end(s, from, p) <= s.len(),
        forall|j: int| from <= j < run_end(s, from, p) ==> p(#[trigger] s[j]),
        run_end(s, from, p) < s.len() ==> !p(s[run_end(s, from, p)]),
    decreases s.len() - from,
{
    if from < s.len() && p(s[from]) {
        lemma_run_end(s, from + 1, p);
    }
}

/// A run within a suffix, placed back into the whole sequence.
pub proof fn lemma_run_end_skip(s: Seq<char>, from: int, p: spec_fn(char) -> bool)
    requires
        0 <= from <= s.len(),
    ensures
        run_end(s.skip(from), 0, p) == run_end(s, from, p) - from,
    decreases s.len() - from,
{
    let t = s.skip(from);
    if from < s.len() {
        assert(t[0] == s[from]);
        if p(s[from]) {
            lemma_run_end_skip(s, from + 1, p);
            assert(s.skip(from + 1) =~= t.skip(1));
            lemma_run_end_shift(t, p);
        }
    }
}

/// Dropping the first character of a run shortens it by one.
proof fn lemma_run_end_shift(t: Seq<char>, p: spec_fn(char) -> bool)
    requires
        t.len() >= 1,
        p(t[0]),
    ensures
        run_end(t, 0, p) == run_end(t.skip(1), 0, p) + 1,
    decreases t.len(),
{
    let u = t.skip(1);
    lemma_run_end_rel(t, u, 1, 0, p);
}

/// `run_end` looks only at the characters from the starting point on.
proof fn lemma_run_end_rel(t: Seq<char>, u: Seq<char>, i: int, k: int, p: spec_fn(char) -> bool)
    requires
        0 <= i <= t.len(),
        0 <= k <= u.len(),
        t.len() - i == u.len() - k,
        forall|j: int| 0 <= j < t.len() - i ==> t[i + j] == #[trigger] u[k + j],
    ensures
        run_end(t, i, p) - i == run_end(u, k, p) - k,
    decreases t.len() - i,
{
    if i < t.len() {
        assert(t[i] == u[k]) by {
            assert(t[i + 0] == u[k + 0]);
        }
        if p(t[i]) {
            assert forall|j: int| 0 <= j < t.len() - (i + 1) implies t[(i + 1) + j] == #[trigger] u[
                (k + 1) + j] by {
                assert(t[i + (j + 1)] == u[k + (j + 1)]);
            }
            lemma_run_end_rel(t, u, i + 1, k + 1, p);
            assert(run_end(t, i + 1, p) - (i + 1) == run_end(u, k + 1, p) - (k + 1));
        }
    }
}

pub open spec fn ws_p() -> spec_fn(char) -> bool {
    |c: char| is_ws_char(c)
}

pub open spec fn non_ws_p() -> spec_fn(char) -> bool {
    |c: char| !is_ws_char(c)
}

pub open spec fn alnum_p() -> spec_fn(char) -> bool {
    |c: char| is_alnum_char(c)
}

pub open spec fn numeric_p() -> spec_fn(char) -> bool {
    |c: char| is_numeric_char(c)
}

/// The characters not occurring in `t`.
pub open spec fn not_in_p(t: Seq<char>) -> spec_fn(char) -> bool {
    |c: char| !t.contains(c)
}

pub fn scan_end_ws(v: &Vec<char>, from: usize) -> (j: usize)
    requires
        from <= v@.len(),
    ensures
        j == run_end(v@, from as int, ws_p()),
{
    let mut i = from;
    while i < v.len() && char_is_ws(v[i])
        invariant
            from <= i <= v@.len(),
            run_end(v@, from as int, ws_p()) == run_end(v@, i as int, ws_p()),
        decreases v@.len() - i,
    {
        i += 1;
    }
    i
}

pub fn scan_end_non_ws(v: &Vec<char>, from: usize) -> (j: usize)
    requires
        from <= v@.len(),
    ensures
        j == run_end(v@, from as int, non_ws_p()),
{
    let mut i = from;
    while i < v.len() && !char_is_ws(v[i])
        invariant
            from <= i <= v@.len(),
            run_end(v@, from as int, non_ws_p()) == run_end(v@, i as int, non_ws_p()),
        decreases v@.len() - i,
    {
        i += 1;
    }
    i
}

pub fn scan_end_alnum(v: &Vec<char>, from: usize) -> (j: usize)
    requires
        from <= v@.len(),
    ensures
        j == run_end(v@, from as int, alnum_p()),
{
    let mut i = from;
    while i < v.len() && char_is_alnum(v[i])
        invariant
            from <= i <= v@.len(),
            run_end(v@, from as int, alnum_p()) == run_end(v@, i as int, alnum_p()),
        decreases v@.len() - i,
    {
        i += 1;
    }
    i
}

pub fn scan_end_numeric(v: &Vec<char>, from: usize) -> (j: usize)
    requires
        from <= v@.len(),
    ensures
        j == run_end(v@, from as int, numeric_p()),
{
    let mut i = from;
    while i < v.len() && char_is_numeric(v[i])
        invariant
            from <= i <= v@.len(),
            run_end(v@, from as int, numeric_p()) == run_end(v@, i as int, numeric_p()),
        decreases v@.len() - i,
    {
        i += 1;
    }
    i
}

pub fn chars_contains(t: &Vec<char>, c: char) -> (b: bool)
    ensures
        b == t@.contains(c),
{
    let mut i: usize = 0;
    while i < t.len()
        invariant
            i <= t@.len(),
            forall|j: int| 0 <= j < i ==> t@[j] != c,
        decreases t@.len() - i,
    {
        if t[i] == c {
            return true;
        }
        i += 1;
    }
    false
}

pub fn scan_end_not_in(v: &Vec<char>, from: usize, t: &Vec<char>) -> (j: usize)
    requires
        from <= v@.len(),
    ensures
        j == run_end(v@, from as int, not_in_p(t@)),
{
    let mut i = from;
    loop
        invariant
            from <= i <= v@.len(),
            run_end(v@, from as int, not_in_p(t@)) == run_end(v@, i as int, not_in_p(t@)),
        ensures
            i == run_end(v@, from as int, not_in_p(t@)),
        decreases v@.len() - i,
    {
        if i >= v.len() {
            break ;
        }
        if chars_contains(t, v[i]) {
            break ;
        }
        i += 1;
    }
    i
}

/// A copy of `v[from..to]`.
pub fn subvec(v: &Vec<char>, from: usize, to: usize) -> (w: Vec<char>)
    requires
        from <= to <= v@.len(),
    ensures
        w@ == v@.subrange(from as int, to as int),
{
    let mut w: Vec<char> = Vec::new();
    let mut i = from;
    while i < to
        invariant
            from <= i <= to <= v@.len(),
            w@ =~= v@.subrange(from as int, i as int),
        decreases to - i,
    {
        let c = v[i];
        w.push(c);
        proof {
            assert(w@ =~= v@.subrange(from as int, i as int + 1));
        }
        i += 1;
    }
    w
}

/// The string holding `v[from..to]`.
pub fn substring_of(v: &Vec<char>, from: usize, to: usize) -> (s: String)
    requires
        from <= to <= v@.len(),
    ensures
        s@ == v@.subrange(from as int, to as int),
{
    let w = subvec(v, from, to);
    string_from_chars(&w)
}

/// The string holding the one character `c`.
pub fn char_string(c: char) -> (s: String)
    ensures
        s@ == seq![c],
{
    let mut w: Vec<char> = Vec::new();
    w.push(c);
    proof {
        assert(w@ =~= seq![c]);
    }
    string_from_chars(&w)
}


/// The pieces of `s` split at every occurrence of `sep`; one piece
/// more than there are separators.
pub open spec fn sp_split(s: Seq<char>, sep: char) -> Seq<Seq<char>>
    decreases s.len(),
    via sp_split_dec
{
    let k = run_end(s, 0, not_in_p(seq![sep]));
    if k >= s.len() {
        seq![s]
    } else {
        seq![s.subrange(0, k)] + sp_split(s.skip(k + 1), sep)
    }
}

#[via_fn]
proof fn sp_split_dec(s: Seq<char>, sep: char) {
    lemma_run_end(s, 0, not_in_p(seq![sep]));
}

/// The views of a vector of character vectors.
pub open spec fn vv_v(s: Seq<Vec<char>>) -> Seq<Seq<char>> {
    s.map_values(|x: Vec<char>| x@)
}

/// Splits `v` at every occurrence of `sep`.
pub fn split_char(v: &Vec<char>, sep: char) -> (r: Vec<Vec<char>>)
    ensures
        vv_v(r@) == sp_split(v@, sep),
        r@.len() >= 1,
{
    let ghost s0 = v@;
    let mut sepv: Vec<char> = Vec::new();
    sepv.push(sep);
    proof {
        assert(sepv@ =~= seq![sep]);
    }
    let mut out: Vec<Vec<char>> = Vec::new();
    let mut i: usize = 0;
    proof {
        assert(vv_v(out@) =~= Seq::<Seq<char>>::empty());
        assert(s0.skip(0) =~= s0);
        assert(vv_v(out@) + sp_split(s0, sep) =~= sp_split(s0, sep));
    }
    loop
        invariant_except_break
            i <= v@.len(),
            v@ == s0,
            sepv@ == seq![sep],
            ({
                let rest = sp_split(s0.skip(i as int), sep);
                sp_split(s0, sep) == vv_v(out@) + rest
            }),
        ensures
            vv_v(out@) == sp_split(s0, sep),
            out@.len() >= 1,
        decreases v@.len() - i,
    {
        let j = scan_end_not_in(v, i, &sepv);
        proof {
            lemma_run_end(s0, i as int, not_in_p(seq![sep]));
            lemma_run_end_skip(s0, i as int, not_in_p(seq![sep]));
        }
        let piece = subvec(v, i, j);
        let ghost su = s0.skip(i as int);
        proof {
            assert(run_end(su, 0, not_in_p(seq![sep])) == j - i);
            assert(su.subrange(0, j - i) =~= s0.subrange(i as int, j as int));
        }
        out.push(piece);
        if j >= v.len() {
            proof {
                assert(su.len() == s0.len() - i);
                assert(sp_split(su, sep) == seq![su]);
                assert(su =~= s0.subrange(i as int, j as int));
                assert(vv_v(out@) =~= vv_v(out@.drop_last()) + seq![su]);
                assert(vv_v(out@) + Seq::<Seq<char>>::empty() =~= vv_v(out@));
                assert(sp_split(s0, sep) =~= vv_v(out@));
            }
            break ;
        }
        proof {
            assert(sp_split(su, sep) == seq![su.subrange(0, j - i)] + sp_split(
                su.skip(j - i + 1),
                sep,
            ));
            assert(su.skip(j - i + 1) =~= s0.skip(j as int + 1));
            assert(vv_v(out@) =~= vv_v(out@.drop_last()).push(s0.subrange(i as int, j as int)));
            assert(vv_v(out@.drop_last()) + (seq![su.subrange(0, j - i)] + sp_split(
                s0.skip(j as int + 1),
                sep,
            )) =~= vv_v(out@) + sp_split(s0.skip(j as int + 1), sep));
        }
        i = j + 1;
    }
    out
}

/// Where the run of trailing whitespace begins.
pub open spec fn ws_suffix_start(s: Seq<char>) -> int
    decreases s.len(),
{
    if s.len() > 0 && is_ws_char(s.last()) {
        ws_suffix_start(s.drop_last())
    } else {
        s.len() as int
    }
}

/// `s` without leading and trailing whitespace.
pub open spec fn sp_trim(s: Seq<char>) -> Seq<char> {
    let a = run_end(s, 0, ws_p());
    let b = ws_suffix_start(s);
    if a <= b {
        s.subrange(a, b)
    } else {
        Seq::empty()
    }
}

proof fn lemma_ws_suffix(s: Seq<char>)
    ensures
        0 <= ws_suffix_start(s) <= s.len(),
        forall|j: int| ws_suffix_start(s) <= j < s.len() ==> is_ws_char(#[trigger] s[j]),
        ws_suffix_start(s) > 0 ==> !is_ws_char(s[ws_suffix_start(s) - 1]),
    decreases s.len(),
{
    if s.len() > 0 && is_ws_char(s.last()) {
        lemma_ws_suffix(s.drop_last());
        assert forall|j: int| ws_suffix_start(s) <= j < s.len() implies is_ws_char(
            #[trigger] s[j],
        ) by {
            if j < s.len() - 1 {
                assert(s.drop_last()[j] == s[j]);
            }
        }
        if ws_suffix_start(s) > 0 {
            assert(s.drop_last()[ws_suffix_start(s) - 1] == s[ws_suffix_start(s) - 1]);
        }
    }
}

/// Trims whitespace off both ends.
pub fn trim_chars(v: &Vec<char>) -> (r: Vec<char>)
    ensures
        r@ == sp_trim(v@),
{
    let a = scan_end_ws(v, 0);
    proof {
        lemma_run_end(v@, 0, ws_p());
        lemma_ws_suffix(v@);
    }
    let mut b = v.len();
    proof {
        assert(v@.subrange(0, v@.len() as int) =~= v@);
    }
    while b > 0 && char_is_ws(v[b - 1])
        invariant
            b <= v@.len(),
            ws_suffix_start(v@) == ws_suffix_start(v@.subrange(0, b as int)),
            ws_suffix_start(v@) <= b,
        decreases b,
    {
        proof {
            let p = v@.subrange(0, b as int);
            assert(p.last() == v@[b - 1]);
            assert(p.drop_last() =~= v@.subrange(0, b as int - 1));
            lemma_ws_suffix(p);
        }
        b = b - 1;
    }
    proof {
        let p = v@.subrange(0, b as int);
        if b > 0 {
            assert(p.last() == v@[b - 1]);
        }
        assert(ws_suffix_start(p) == p.len());
        assert(ws_suffix_start(v@) == b);
    }
    if a <= b {
        subvec(v, a, b)
    } else {
        let w: Vec<char> = Vec::new();
        proof {
            assert(w@ =~= Seq::<char>::empty());
        }
        w
    }
}

/// The last position where `needle` occurs in `hay`, trying from the
/// right.
pub open spec fn sp_rfind_from(hay: Seq<char>, needle: Seq<char>, i: int) -> Option<int>
    decreases (if i >= 0 { i + 1 } else { 0 }),
{
    if i < 0 {
        None
    } else if hay.subrange(i, i + needle.len() as int) == needle {
        Some(i)
    } else {
        sp_rfind_from(hay, needle, i - 1)
    }
}

pub open spec fn sp_rfind(hay: Seq<char>, needle: Seq<char>) -> Option<int> {
    if needle.len() > hay.len() {
        None
    } else {
        sp_rfind_from(hay, needle, hay.len() - needle.len())
    }
}

/// Whether `needle` sits at position `i` of `hay`.
fn match_at(hay: &Vec<char>, needle: &Vec<char>, i: usize) -> (b: bool)
    requires
        i + needle@.len() <= hay@.len(),
    ensures
        b == (hay@.subrange(i as int, i as int + needle@.len() as int) == needle@),
{
    let hl = hay.len();
    let nl = needle.len();
    let mut k: usize = 0;
    while k < nl
        invariant
            hl == hay@.len(),
            nl == needle@.len(),
            k <= nl,
            i + nl <= hl,
            forall|j: int| 0 <= j < k ==> hay@[i + j] == #[trigger] needle@[j],
        decreases nl - k,
    {
        if hay[i + k] != needle[k] {
            proof {
                assert(hay@.subrange(i as int, i as int + needle@.len() as int)[k as int] == hay@[i
                    + k]);
            }
            return false;
        }
        k += 1;
    }
    proof {
        assert(hay@.subrange(i as int, i as int + needle@.len() as int) =~= needle@);
    }
    true
}

/// The rightmost occurrence of `needle` in `hay`.
pub fn rfind_chars(hay: &Vec<char>, needle: &Vec<char>) -> (r: Option<usize>)
    ensures
        match r {
            Some(i) => sp_rfind(hay@, needle@) == Some(i as int) && i + needle@.len()
                <= hay@.len(),
            None => sp_rfind(hay@, needle@) is None,
        },
{
    if needle.len() > hay.len() {
        return None;
    }
    let mut i = hay.len() - needle.len();
    let mut found = false;
    loop
        invariant_except_break
            i + needle@.len() <= hay@.len(),
            !found,
            sp_rfind(hay@, needle@) == sp_rfind_from(hay@, needle@, i as int),
        ensures
            i + needle@.len() <= hay@.len(),
            found ==> sp_rfind(hay@, needle@) == Some(i as int),
            !found ==> sp_rfind(hay@, needle@) is None,
        decreases i + 1,
    {
        if match_at(hay, needle, i) {
            found = true;
            proof {
                assert(sp_rfind_from(hay@, needle@, i as int) == Some(i as int));
            }
            break ;
        }
        if i == 0 {
            proof {
                assert(sp_rfind_from(hay@, needle@, 0) == sp_rfind_from(hay@, needle@, -1));
                assert(sp_rfind_from(hay@, needle@, -1) is None);
            }
            break ;
        }
        proof {
            assert(sp_rfind_from(hay@, needle@, i as int) == sp_rfind_from(
                hay@,
                needle@,
                i as int - 1,
            ));
        }
        i = i - 1;
    }
    if found {
        Some(i)
    } else {
        None
    }
}
} // verus!
