//! Recognising tamp's own outputs among the files of a watched folder.
//!
//! An output's file stem is its original's stem followed by a suffix
//! ` (tamped…)`. Inside the parentheses, after the word `tamped`, come
//! space-separated tokens in one of these shapes:
//!
//! * nothing — `clip (tamped)` (legacy);
//! * a counter — `clip (tamped 2)` (legacy);
//! * a part token `p<digits>of<digits>` — `clip (tamped p2of5)`;
//! * an optional preset name, a 4-character lowercase hex hash, then
//!   optionally a counter or a part token — `clip (tamped a3f2)`,
//!   `clip (tamped a3f2 2)`, `clip (tamped 823f p1of3)`,
//!   `clip (tamped Discord a3f2)`.
use vstd::prelude::*;

use crate::text::{chars_of, decimal};

verus! {

// ---------------------------------------------------------------------------
// The suffix grammar

pub open spec fn is_digit(c: char) -> bool {
    '0' <= c && c <= '9'
}

pub open spec fn is_lower_hex(c: char) -> bool {
    ('0' <= c && c <= '9') || ('a' <= c && c <= 'f')
}

/// A non-empty run of ASCII digits.
pub open spec fn all_digits(t: Seq<char>) -> bool {
    t.len() > 0 && forall|i: int| 0 <= i < t.len() ==> is_digit(#[trigger] t[i])
}

/// Exactly four lowercase hex characters.
pub open spec fn is_hash(t: Seq<char>) -> bool {
    t.len() == 4 && forall|i: int| 0 <= i < t.len() ==> is_lower_hex(#[trigger] t[i])
}

/// `p<digits>of<digits>`.
pub open spec fn is_part_token(t: Seq<char>) -> bool {
    &&& t.len() > 0
    &&& t[0] == 'p'
    &&& exists|i: int|
        #![trigger t[i]]
        2 <= i && i + 2 < t.len() && all_digits(t.subrange(1, i)) && t[i] == 'o' && t[i + 1]
            == 'f' && all_digits(t.subrange(i + 2, t.len() as int))
}

/// A preset name: space-separated non-empty words, no parentheses.
pub open spec fn is_name(w: Seq<char>) -> bool {
    &&& w.len() > 0
    &&& w[0] != ' '
    &&& w[w.len() - 1] != ' '
    &&& forall|i: int| 0 <= i < w.len() ==> #[trigger] w[i] != '(' && w[i] != ')'
    &&& forall|i: int| 0 <= i < w.len() - 1 ==> !(#[trigger] w[i] == ' ' && w[i + 1] == ' ')
}

/// A hash, optionally preceded by a preset name and a space.
pub open spec fn is_keyed(t: Seq<char>) -> bool {
    ||| is_hash(t)
    ||| exists|i: int|
        #![trigger t[i]]
        0 <= i < t.len() && t[i] == ' ' && is_name(t.take(i)) && is_hash(t.skip(i + 1))
}

pub open spec fn is_counter_or_part(t: Seq<char>) -> bool {
    all_digits(t) || is_part_token(t)
}

/// The tokens that follow `tamped ` inside the parentheses.
pub open spec fn is_suffix_tokens(b: Seq<char>) -> bool {
    ||| is_counter_or_part(b)
    ||| is_keyed(b)
    ||| exists|i: int|
        #![trigger b[i]]
        0 <= i < b.len() && b[i] == ' ' && is_keyed(b.take(i)) && is_counter_or_part(
            b.skip(i + 1),
        )
}

/// What stands between `(tamped` and the closing parenthesis.
pub open spec fn is_suffix_body(x: Seq<char>) -> bool {
    x.len() == 0 || (x[0] == ' ' && is_suffix_tokens(x.drop_first()))
}

/// ` (tamped`
pub open spec fn marker() -> Seq<char> {
    seq![' ', '(', 't', 'a', 'm', 'p', 'e', 'd']
}

/// `s` is an output stem whose suffix starts at index `k`: `s[..k]` is the
/// original's stem.
pub open spec fn output_suffix_at(s: Seq<char>, k: int) -> bool {
    &&& 0 <= k
    &&& k + 9 <= s.len()
    &&& s.subrange(k, k + 8) == marker()
    &&& s[s.len() - 1] == ')'
    &&& is_suffix_body(s.subrange(k + 8, s.len() - 1))
}

pub open spec fn no_space(t: Seq<char>) -> bool {
    forall|i: int| 0 <= i < t.len() ==> #[trigger] t[i] != ' '
}

pub open spec fn no_open_paren(t: Seq<char>) -> bool {
    forall|i: int| 0 <= i < t.len() ==> #[trigger] t[i] != '('
}

proof fn lemma_tokens_have_no_space(t: Seq<char>)
    ensures
        all_digits(t) ==> no_space(t),
        is_hash(t) ==> no_space(t),
        is_part_token(t) ==> no_space(t),
{
    if is_part_token(t) {
        let i = choose|i: int|
            #![trigger t[i]]
            2 <= i && i + 2 < t.len() && all_digits(t.subrange(1, i)) && t[i] == 'o' && t[i + 1]
                == 'f' && all_digits(t.subrange(i + 2, t.len() as int));
        assert forall|k: int| 0 <= k < t.len() implies #[trigger] t[k] != ' ' by {
            if 1 <= k < i {
                assert(t.subrange(1, i)[k - 1] == t[k]);
            } else if i + 2 <= k {
                assert(t.subrange(i + 2, t.len() as int)[k - i - 2] == t[k]);
            }
        }
    }
}

proof fn lemma_tokens_have_no_paren(t: Seq<char>)
    ensures
        is_suffix_tokens(t) ==> no_open_paren(t),
{
    lemma_counter_part_no_paren(t);
    lemma_keyed_no_paren(t);
    if is_suffix_tokens(t) && !is_counter_or_part(t) && !is_keyed(t) {
        let i = choose|i: int|
            #![trigger t[i]]
            0 <= i < t.len() && t[i] == ' ' && is_keyed(t.take(i)) && is_counter_or_part(
                t.skip(i + 1),
            );
        lemma_keyed_no_paren(t.take(i));
        lemma_counter_part_no_paren(t.skip(i + 1));
        assert forall|k: int| 0 <= k < t.len() implies #[trigger] t[k] != '(' by {
            if k < i {
                assert(t.take(i)[k] == t[k]);
            } else if k > i {
                assert(t.skip(i + 1)[k - i - 1] == t[k]);
            }
        }
    }
}

proof fn lemma_counter_part_no_paren(t: Seq<char>)
    ensures
        is_counter_or_part(t) ==> no_open_paren(t),
{
    if is_part_token(t) {
        let i = choose|i: int|
            #![trigger t[i]]
            2 <= i && i + 2 < t.len() && all_digits(t.subrange(1, i)) && t[i] == 'o' && t[i + 1]
                == 'f' && all_digits(t.subrange(i + 2, t.len() as int));
        assert forall|k: int| 0 <= k < t.len() implies #[trigger] t[k] != '(' by {
            if 1 <= k < i {
                assert(t.subrange(1, i)[k - 1] == t[k]);
            } else if i + 2 <= k {
                assert(t.subrange(i + 2, t.len() as int)[k - i - 2] == t[k]);
            }
        }
    }
}

proof fn lemma_keyed_no_paren(t: Seq<char>)
    ensures
        is_keyed(t) ==> no_open_paren(t),
{
    if is_keyed(t) && !is_hash(t) {
        let i = choose|i: int|
            #![trigger t[i]]
            0 <= i < t.len() && t[i] == ' ' && is_name(t.take(i)) && is_hash(t.skip(i + 1));
        assert forall|k: int| 0 <= k < t.len() implies #[trigger] t[k] != '(' by {
            if k < i {
                assert(t.take(i)[k] == t[k]);
            } else if k > i {
                assert(t.skip(i + 1)[k - i - 1] == t[k]);
            }
        }
    }
}

/// At most one position of a stem can start a valid output suffix.
pub proof fn lemma_output_suffix_unique(s: Seq<char>, k1: int, k2: int)
    requires
        output_suffix_at(s, k1),
        output_suffix_at(s, k2),
    ensures
        k1 == k2,
{
    if k1 < k2 {
        lemma_no_paren_after(s, k1, k2);
    } else if k2 < k1 {
        lemma_no_paren_after(s, k2, k1);
    }
}

proof fn lemma_no_paren_after(s: Seq<char>, k1: int, k2: int)
    ensures
        !(output_suffix_at(s, k1) && output_suffix_at(s, k2) && k1 < k2),
{
    if !(output_suffix_at(s, k1) && output_suffix_at(s, k2) && k1 < k2) {
        return;
    }
    let x = s.subrange(k1 + 8, s.len() - 1);
    assert(s.subrange(k2, k2 + 8)[1] == s[k2 + 1]);
    assert(s[k2 + 1] == '(');
    // k2 + 1 lies inside x (k2 + 1 > k1 + 1 and k2 + 9 <= len)
    if k2 + 1 < k1 + 8 {
        // inside the marker of k1: marker has '(' only at offset 1
        let off = k2 + 1 - k1;
        assert(s.subrange(k1, k1 + 8)[off] == s[k2 + 1]);
        assert(marker()[off] != '(');
    } else {
        assert(x.len() > 0);
        assert(x[0] == ' ');
        lemma_tokens_have_no_paren(x.drop_first());
        let p = k2 + 1 - (k1 + 8);
        assert(x[p] == s[k2 + 1]);
        assert(p >= 1);
        assert(x.drop_first()[p - 1] == x[p]);
    }
}

// ---------------------------------------------------------------------------
// Checking the grammar over a range of a character vector

fn digit_at(s: &Vec<char>, i: usize) -> (r: bool)
    requires
        i < s.len(),
    ensures
        r == is_digit(s@[i as int]),
{
    '0' <= s[i] && s[i] <= '9'
}

fn digits_in(s: &Vec<char>, lo: usize, hi: usize) -> (r: bool)
    requires
        lo <= hi <= s.len(),
    ensures
        r == all_digits(s@.subrange(lo as int, hi as int)),
{
    if lo == hi {
        return false;
    }
    let mut i = lo;
    while i < hi
        invariant
            lo <= i <= hi <= s.len(),
            forall|k: int| lo <= k < i ==> is_digit(s@[k]),
        decreases hi - i,
    {
        if !digit_at(s, i) {
            assert(s@.subrange(lo as int, hi as int)[i - lo] == s@[i as int]);
            return false;
        }
        i = i + 1;
    }
    let ghost t = s@.subrange(lo as int, hi as int);
    assert forall|k: int| 0 <= k < t.len() implies is_digit(#[trigger] t[k]) by {
        assert(t[k] == s@[lo + k]);
    }
    true
}

fn hash_in(s: &Vec<char>, lo: usize, hi: usize) -> (r: bool)
    requires
        lo <= hi <= s.len(),
    ensures
        r == is_hash(s@.subrange(lo as int, hi as int)),
{
    if hi - lo != 4 {
        return false;
    }
    let mut i = lo;
    while i < hi
        invariant
            lo <= i <= hi <= s.len(),
            forall|k: int| lo <= k < i ==> is_lower_hex(s@[k]),
        decreases hi - i,
    {
        let c = s[i];
        if !(('0' <= c && c <= '9') || ('a' <= c && c <= 'f')) {
            assert(s@.subrange(lo as int, hi as int)[i - lo] == s@[i as int]);
            return false;
        }
        i = i + 1;
    }
    let ghost t = s@.subrange(lo as int, hi as int);
    assert forall|k: int| 0 <= k < t.len() implies is_lower_hex(#[trigger] t[k]) by {
        assert(t[k] == s@[lo + k]);
    }
    true
}

fn part_in(s: &Vec<char>, lo: usize, hi: usize) -> (r: bool)
    requires
        lo <= hi <= s.len(),
    ensures
        r == is_part_token(s@.subrange(lo as int, hi as int)),
{
    let ghost t = s@.subrange(lo as int, hi as int);
    if lo == hi || s[lo] != 'p' {
        assert(lo < hi ==> t[0] == s@[lo as int]);
        return false;
    }
    assert(t[0] == s@[lo as int]);
    let mut i = lo + 1;
    while i < hi && digit_at(s, i)
        invariant
            lo + 1 <= i <= hi <= s.len(),
            forall|k: int| lo + 1 <= k < i ==> is_digit(s@[k]),
        decreases hi - i,
    {
        i = i + 1;
    }
    // i is the first non-digit after the 'p' (or hi)
    let ok = i > lo + 1 && i < hi && hi - i > 2 && s[i] == 'o' && s[i + 1] == 'f' && digits_in(
        s,
        i + 2,
        hi,
    );
    proof {
        let ri = i - lo;
        if ok {
            assert(t.subrange(1, ri as int) =~= s@.subrange(lo + 1, i as int));
            assert(t.subrange(ri + 2, t.len() as int) =~= s@.subrange(i + 2, hi as int));
            assert forall|k: int| 0 <= k < t.subrange(1, ri as int).len() implies is_digit(
                #[trigger] t.subrange(1, ri as int)[k],
            ) by {
                assert(t.subrange(1, ri as int)[k] == s@[lo + 1 + k]);
            }
            assert(t[ri as int] == s@[i as int]);
            assert(t[ri + 1] == s@[i + 1]);
        } else {
            if is_part_token(t) {
                let j = choose|j: int|
                    #![trigger t[j]]
                    2 <= j && j + 2 < t.len() && all_digits(t.subrange(1, j)) && t[j] == 'o'
                        && t[j + 1] == 'f' && all_digits(t.subrange(j + 2, t.len() as int));
                // the first non-digit after 'p' is exactly at j
                if lo + j < i {
                    assert(is_digit(s@[lo + j]));
                    assert(t[j] == s@[lo + j]);
                } else if lo + j > i {
                    assert(i < hi);
                    assert(!is_digit(s@[i as int]));
                    assert(t.subrange(1, j)[i - lo - 1] == s@[i as int]);
                } else {
                    assert(t[j] == s@[lo + j]);
                    assert(t[j + 1] == s@[lo + j + 1]);
                    assert(t.subrange(j + 2, t.len() as int) =~= s@.subrange(i + 2, hi as int));
                }
            }
        }
    }
    ok
}

fn name_in(s: &Vec<char>, lo: usize, hi: usize) -> (r: bool)
    requires
        lo <= hi <= s.len(),
    ensures
        r == is_name(s@.subrange(lo as int, hi as int)),
{
    let ghost t = s@.subrange(lo as int, hi as int);
    if lo == hi {
        return false;
    }
    assert(t[0] == s@[lo as int]);
    assert(t[t.len() - 1] == s@[hi - 1]);
    if s[lo] == ' ' || s[hi - 1] == ' ' {
        return false;
    }
    let mut i = lo;
    while i < hi
        invariant
            lo <= i <= hi <= s.len(),
            t == s@.subrange(lo as int, hi as int),
            forall|k: int| lo <= k < i ==> s@[k] != '(' && s@[k] != ')',
            forall|k: int| lo <= k < i && k + 1 < hi ==> !(#[trigger] s@[k] == ' ' && s@[k + 1] == ' '),
        decreases hi - i,
    {
        if s[i] == '(' || s[i] == ')' {
            assert(t[i - lo] == s@[i as int]);
            return false;
        }
        if i + 1 < hi && s[i] == ' ' && s[i + 1] == ' ' {
            assert(t[i - lo] == s@[i as int]);
            assert(t[i - lo + 1] == s@[i + 1]);
            return false;
        }
        i = i + 1;
    }
    assert forall|k: int| 0 <= k < t.len() implies #[trigger] t[k] != '(' && t[k] != ')' by {
        assert(t[k] == s@[lo + k]);
    }
    assert forall|k: int| 0 <= k < t.len() - 1 implies !(#[trigger] t[k] == ' ' && t[k + 1]
        == ' ') by {
        assert(t[k] == s@[lo + k]);
        assert(t[k + 1] == s@[lo + k + 1]);
    }
    true
}

/// The index of the last space in `s[lo..hi]`, if any.
fn last_space_in(s: &Vec<char>, lo: usize, hi: usize) -> (r: Option<usize>)
    requires
        lo <= hi <= s.len(),
    ensures
        r matches Some(j) ==> lo <= j < hi && s@[j as int] == ' ' && forall|k: int|
            j < k < hi ==> s@[k] != ' ',
        r is None ==> forall|k: int| lo <= k < hi ==> s@[k] != ' ',
{
    let mut i = hi;
    while i > lo
        invariant
            lo <= i <= hi <= s.len(),
            forall|k: int| i <= k < hi ==> s@[k] != ' ',
        decreases i - lo,
    {
        if s[i - 1] == ' ' {
            return Some(i - 1);
        }
        i = i - 1;
    }
    None
}

proof fn lemma_split_at_last_space(s: Seq<char>, lo: int, hi: int, j: int, i: int)
    requires
        0 <= lo <= j < hi <= s.len(),
        forall|k: int| j < k < hi ==> s[k] != ' ',
        0 <= i < hi - lo,
        s.subrange(lo, hi)[i] == ' ',
        no_space(s.subrange(lo, hi).skip(i + 1)),
        s[j] == ' ',
    ensures
        lo + i == j,
{
    let t = s.subrange(lo, hi);
    if lo + i < j {
        assert(t.skip(i + 1)[j - lo - i - 1] == s[j]);
    } else if lo + i > j {
        assert(t[i] == s[lo + i]);
    }
}

fn keyed_in(s: &Vec<char>, lo: usize, hi: usize) -> (r: bool)
    requires
        lo <= hi <= s.len(),
    ensures
        r == is_keyed(s@.subrange(lo as int, hi as int)),
{
    let ghost t = s@.subrange(lo as int, hi as int);
    match last_space_in(s, lo, hi) {
        None => {
            let r = hash_in(s, lo, hi);
            proof {
                if !r && is_keyed(t) {
                    let i = choose|i: int|
                        #![trigger t[i]]
                        0 <= i < t.len() && t[i] == ' ' && is_name(t.take(i)) && is_hash(
                            t.skip(i + 1),
                        );
                    assert(t[i] == s@[lo + i]);
                }
            }
            r
        },
        Some(j) => {
            let r = name_in(s, lo, j) && hash_in(s, j + 1, hi);
            proof {
                let i = j - lo;
                assert(t.take(i as int) =~= s@.subrange(lo as int, j as int));
                assert(t.skip(i + 1) =~= s@.subrange(j + 1, hi as int));
                assert(t[i as int] == s@[j as int]);
                lemma_tokens_have_no_space(t);
                if is_hash(t) {
                    assert(t[i as int] == ' ');
                }
                if !r && is_keyed(t) && !is_hash(t) {
                    let i2 = choose|i2: int|
                        #![trigger t[i2]]
                        0 <= i2 < t.len() && t[i2] == ' ' && is_name(t.take(i2)) && is_hash(
                            t.skip(i2 + 1),
                        );
                    lemma_tokens_have_no_space(t.skip(i2 + 1));
                    lemma_split_at_last_space(s@, lo as int, hi as int, j as int, i2);
                }
            }
            r
        },
    }
}

fn counter_or_part_in(s: &Vec<char>, lo: usize, hi: usize) -> (r: bool)
    requires
        lo <= hi <= s.len(),
    ensures
        r == is_counter_or_part(s@.subrange(lo as int, hi as int)),
{
    digits_in(s, lo, hi) || part_in(s, lo, hi)
}

fn suffix_tokens_in(s: &Vec<char>, lo: usize, hi: usize) -> (r: bool)
    requires
        lo <= hi <= s.len(),
    ensures
        r == is_suffix_tokens(s@.subrange(lo as int, hi as int)),
{
    let ghost t = s@.subrange(lo as int, hi as int);
    if counter_or_part_in(s, lo, hi) || keyed_in(s, lo, hi) {
        return true;
    }
    match last_space_in(s, lo, hi) {
        None => {
            proof {
                if is_suffix_tokens(t) {
                    let i = choose|i: int|
                        #![trigger t[i]]
                        0 <= i < t.len() && t[i] == ' ' && is_keyed(t.take(i))
                            && is_counter_or_part(t.skip(i + 1));
                    assert(t[i] == s@[lo + i]);
                }
            }
            false
        },
        Some(j) => {
            let r = keyed_in(s, lo, j) && counter_or_part_in(s, j + 1, hi);
            proof {
                let i = j - lo;
                assert(t.take(i as int) =~= s@.subrange(lo as int, j as int));
                assert(t.skip(i + 1) =~= s@.subrange(j + 1, hi as int));
                assert(t[i as int] == s@[j as int]);
                if !r && is_suffix_tokens(t) {
                    let i2 = choose|i2: int|
                        #![trigger t[i2]]
                        0 <= i2 < t.len() && t[i2] == ' ' && is_keyed(t.take(i2))
                            && is_counter_or_part(t.skip(i2 + 1));
                    lemma_tokens_have_no_space(t.skip(i2 + 1));
                    lemma_split_at_last_space(s@, lo as int, hi as int, j as int, i2);
                }
            }
            r
        },
    }
}

fn suffix_body_in(s: &Vec<char>, lo: usize, hi: usize) -> (r: bool)
    requires
        lo <= hi <= s.len(),
    ensures
        r == is_suffix_body(s@.subrange(lo as int, hi as int)),
{
    let ghost x = s@.subrange(lo as int, hi as int);
    if lo == hi {
        return true;
    }
    assert(x[0] == s@[lo as int]);
    assert(x.drop_first() =~= s@.subrange(lo + 1, hi as int));
    s[lo] == ' ' && suffix_tokens_in(s, lo + 1, hi)
}

fn marker_at(s: &Vec<char>, k: usize) -> (r: bool)
    requires
        k + 8 <= s.len(),
    ensures
        r == (s@.subrange(k as int, k + 8) == marker()),
{
    let r = s[k] == ' ' && s[k + 1] == '(' && s[k + 2] == 't' && s[k + 3] == 'a' && s[k + 4]
        == 'm' && s[k + 5] == 'p' && s[k + 6] == 'e' && s[k + 7] == 'd';
    proof {
        let w = s@.subrange(k as int, k + 8);
        if r {
            assert(w =~= marker());
        } else if w == marker() {
            assert(w[0] == s@[k as int]);
            assert(w[1] == s@[k + 1]);
            assert(w[2] == s@[k + 2]);
            assert(w[3] == s@[k + 3]);
            assert(w[4] == s@[k + 4]);
            assert(w[5] == s@[k + 5]);
            assert(w[6] == s@[k + 6]);
            assert(w[7] == s@[k + 7]);
        }
    }
    r
}

/// If `stem` ends with a tamped-output suffix, returns the derived original
/// stem (the stem with the whole suffix removed); `None` otherwise.
pub fn tamped_original_stem(stem: &str) -> (r: Option<&str>)
    ensures
        r is Some <==> exists|k: int| output_suffix_at(stem@, k),
        r matches Some(o) ==> o@ == stem@.take(o@.len() as int) && output_suffix_at(
            stem@,
            o@.len() as int,
        ),
{
    let s = chars_of(stem);
    let n = s.len();
    if n < 9 || s[n - 1] != ')' {
        proof {
            if exists|k: int| output_suffix_at(stem@, k) {
                let k = choose|k: int| output_suffix_at(stem@, k);
            }
        }
        return None;
    }
    // The suffix can only start at the last ` (tamped` marker: the tokens
    // never contain a parenthesis.
    let mut k = n - 9 + 1;
    while k > 0
        invariant
            n == s.len(),
            s@ == stem@,
            s@[n - 1] == ')',
            9 <= n,
            k <= n - 8,
            forall|j: int| k <= j && j + 9 <= n ==> #[trigger] s@.subrange(j, j + 8) != marker(),
        decreases k,
    {
        if marker_at(&s, k - 1) {
            let at = k - 1;
            let ok = suffix_body_in(&s, at + 8, n - 1);
            proof {
                if !ok {
                    if exists|j: int| output_suffix_at(stem@, j) {
                        let j = choose|j: int| output_suffix_at(stem@, j);
                        if j > at {
                            assert(s@.subrange(j, j + 8) != marker());
                        }
                        if j < at {
                            // a valid suffix at j would contain the marker's '('
                            lemma_earlier_marker_invalid(s@, j, at as int);
                        }
                    }
                }
            }
            if ok {
                assert(at <= stem@.len());
                assert(output_suffix_at(stem@, at as int));
                let o = stem.substring_char(0, at);
                return Some(o);
            } else {
                return None;
            }
        }
        k = k - 1;
    }
    proof {
        if exists|j: int| output_suffix_at(stem@, j) {
            let j = choose|j: int| output_suffix_at(stem@, j);
        }
    }
    None
}

proof fn lemma_earlier_marker_invalid(s: Seq<char>, j: int, at: int)
    ensures
        !(output_suffix_at(s, j) && j < at && at + 9 <= s.len() && s.subrange(at, at + 8)
            == marker()),
{
    if !(output_suffix_at(s, j) && j < at && at + 9 <= s.len() && s.subrange(at, at + 8)
        == marker()) {
        return;
    }
    let x = s.subrange(j + 8, s.len() - 1);
    assert(s.subrange(at, at + 8)[1] == s[at + 1]);
    if at + 1 < j + 8 {
        let off = at + 1 - j;
        assert(s.subrange(j, j + 8)[off] == s[at + 1]);
    } else {
        lemma_tokens_have_no_paren(x.drop_first());
        let p = at + 1 - (j + 8);
        assert(x[p] == s[at + 1]);
        assert(x.drop_first()[p - 1] == x[p]);
    }
}


// ---------------------------------------------------------------------------
// The names the planner emits

/// `orig (tamped<tokens>)`
pub open spec fn suffixed(orig: Seq<char>, tokens: Seq<char>) -> Seq<char> {
    orig + marker() + tokens + seq![')']
}

/// `p<i>of<n>`
pub open spec fn part_token(i: nat, n: nat) -> Seq<char> {
    seq!['p'] + decimal(i) + seq!['o', 'f'] + decimal(n)
}

proof fn lemma_decimal_digits(n: nat)
    ensures
        all_digits(decimal(n)),
    decreases n,
{
    if n >= 10 {
        lemma_decimal_digits(n / 10);
        let d = decimal(n);
        assert forall|i: int| 0 <= i < d.len() implies is_digit(#[trigger] d[i]) by {
            if i < decimal(n / 10).len() {
                assert(d[i] == decimal(n / 10)[i]);
            }
        }
    }
}

proof fn lemma_part_token(i: nat, n: nat)
    ensures
        is_part_token(part_token(i, n)),
{
    lemma_decimal_digits(i);
    lemma_decimal_digits(n);
    let t = part_token(i, n);
    let k = 1 + decimal(i).len() as int;
    assert(t.subrange(1, k) =~= decimal(i));
    assert(t.subrange(k + 2, t.len() as int) =~= decimal(n));
    assert(t[k] == 'o');
}

proof fn lemma_suffix_at(orig: Seq<char>, tokens: Seq<char>)
    requires
        tokens.len() == 0 || (tokens[0] == ' ' && is_suffix_tokens(tokens.drop_first())),
    ensures
        forall|k: int| output_suffix_at(suffixed(orig, tokens), k) <==> k == orig.len(),
{
    let s = suffixed(orig, tokens);
    let k0 = orig.len() as int;
    assert(s.subrange(k0, k0 + 8) =~= marker());
    assert(s.subrange(k0 + 8, s.len() - 1) =~= tokens);
    assert(output_suffix_at(s, k0));
    assert forall|k: int| output_suffix_at(s, k) implies k == k0 by {
        lemma_output_suffix_unique(s, k, k0);
    }
}

/// Every stem the planner names an output with is recognised by
/// [`tamped_original_stem`], which then yields exactly the original stem: the
/// legacy `(tamped)` and `(tamped N)`, the hashed `(tamped H)` and
/// `(tamped H N)`, the named `(tamped NAME H)` and `(tamped NAME H N)`, and the
/// split parts `(tamped pIofN)`, `(tamped H pIofN)` and `(tamped NAME H pIofN)`.
pub proof fn lemma_emitted_names_are_recognised(
    orig: Seq<char>,
    name: Seq<char>,
    hash: Seq<char>,
    counter: nat,
    part: nat,
    parts: nat,
)
    requires
        is_hash(hash),
        is_name(name),
    ensures
        forall|k: int| output_suffix_at(suffixed(orig, seq![]), k) <==> k == orig.len(),
        forall|k: int|
            output_suffix_at(suffixed(orig, seq![' '] + decimal(counter)), k) <==> k
                == orig.len(),
        forall|k: int| output_suffix_at(suffixed(orig, seq![' '] + hash), k) <==> k == orig.len(),
        forall|k: int|
            output_suffix_at(suffixed(orig, seq![' '] + hash + seq![' '] + decimal(counter)), k)
                <==> k == orig.len(),
        forall|k: int|
            output_suffix_at(suffixed(orig, seq![' '] + name + seq![' '] + hash), k) <==> k
                == orig.len(),
        forall|k: int|
            output_suffix_at(
                suffixed(orig, seq![' '] + name + seq![' '] + hash + seq![' '] + decimal(counter)),
                k,
            ) <==> k == orig.len(),
        forall|k: int|
            output_suffix_at(suffixed(orig, seq![' '] + part_token(part, parts)), k) <==> k
                == orig.len(),
        forall|k: int|
            output_suffix_at(
                suffixed(orig, seq![' '] + hash + seq![' '] + part_token(part, parts)),
                k,
            ) <==> k == orig.len(),
        forall|k: int|
            output_suffix_at(
                suffixed(
                    orig,
                    seq![' '] + name + seq![' '] + hash + seq![' '] + part_token(part, parts),
                ),
                k,
            ) <==> k == orig.len(),
{
    lemma_decimal_digits(counter);
    lemma_part_token(part, parts);
    let d = decimal(counter);
    let p = part_token(part, parts);
    // (tamped)
    lemma_suffix_at(orig, seq![]);
    // (tamped N)
    assert((seq![' '] + d).drop_first() =~= d);
    lemma_suffix_at(orig, seq![' '] + d);
    // (tamped pIofN)
    assert((seq![' '] + p).drop_first() =~= p);
    lemma_suffix_at(orig, seq![' '] + p);
    // (tamped H)
    assert((seq![' '] + hash).drop_first() =~= hash);
    lemma_suffix_at(orig, seq![' '] + hash);
    // keyed = NAME H
    let nh = name + seq![' '] + hash;
    assert(nh[name.len() as int] == ' ');
    assert(nh.take(name.len() as int) =~= name);
    assert(nh.skip(name.len() as int + 1) =~= hash);
    assert(is_keyed(nh));
    assert((seq![' '] + name + seq![' '] + hash).drop_first() =~= nh);
    lemma_suffix_at(orig, seq![' '] + name + seq![' '] + hash);
    // keyed followed by a counter or a part token
    lemma_keyed_then(orig, hash, d);
    lemma_keyed_then(orig, hash, p);
    lemma_keyed_then(orig, nh, d);
    lemma_keyed_then(orig, nh, p);
    assert(seq![' '] + name + seq![' '] + hash + seq![' '] + d =~= seq![' '] + nh + seq![' ']
        + d);
    assert(seq![' '] + name + seq![' '] + hash + seq![' '] + p =~= seq![' '] + nh + seq![' ']
        + p);
}

proof fn lemma_keyed_then(orig: Seq<char>, keyed: Seq<char>, tail: Seq<char>)
    requires
        is_keyed(keyed),
        is_counter_or_part(tail),
    ensures
        forall|k: int|
            output_suffix_at(suffixed(orig, seq![' '] + keyed + seq![' '] + tail), k) <==> k
                == orig.len(),
{
    let b = keyed + seq![' '] + tail;
    let i = keyed.len() as int;
    assert(b[i] == ' ');
    assert(b.take(i) =~= keyed);
    assert(b.skip(i + 1) =~= tail);
    assert(is_suffix_tokens(b));
    assert((seq![' '] + keyed + seq![' '] + tail).drop_first() =~= b);
    lemma_suffix_at(orig, seq![' '] + keyed + seq![' '] + tail);
}


// ---------------------------------------------------------------------------
// Video extensions

/// ASCII lowercase code of `c` (other characters unchanged).
pub open spec fn ascii_lower(c: char) -> u32 {
    if 'A' <= c && c <= 'Z' {
        ((c as u32) + 32) as u32
    } else {
        c as u32
    }
}

/// `str::eq_ignore_ascii_case`.
pub open spec fn eq_ignore_ascii_case(a: Seq<char>, b: Seq<char>) -> bool {
    a.len() == b.len() && forall|i: int| 0 <= i < a.len() ==> #[trigger] ascii_lower(a[i])
        == ascii_lower(b[i])
}

/// The extensions the scanner treats as videos.
pub open spec fn video_exts() -> Seq<Seq<char>> {
    seq![
        seq!['m', 'o', 'v'],
        seq!['m', 'p', '4'],
        seq!['m', '4', 'v'],
        seq!['w', 'e', 'b', 'm'],
        seq!['m', 'k', 'v'],
        seq!['a', 'v', 'i'],
    ]
}

pub open spec fn is_video_ext(ext: Seq<char>) -> bool {
    exists|i: int| 0 <= i < 6 && eq_ignore_ascii_case(ext, #[trigger] video_exts()[i])
}

fn lower_code(c: char) -> (r: u32)
    ensures
        r == ascii_lower(c),
{
    if 'A' <= c && c <= 'Z' {
        (c as u32) + 32
    } else {
        c as u32
    }
}

fn eq_ignore_case_lower(a: &Vec<char>, lower: &[char]) -> (r: bool)
    ensures
        r == eq_ignore_ascii_case(a@, lower@),
{
    if a.len() != lower.len() {
        return false;
    }
    let mut i: usize = 0;
    while i < a.len()
        invariant
            a.len() == lower@.len(),
            i <= a.len(),
            forall|j: int| 0 <= j < i ==> #[trigger] ascii_lower(a@[j]) == ascii_lower(lower@[j]),
        decreases a.len() - i,
    {
        if lower_code(a[i]) != lower_code(lower[i]) {
            return false;
        }
        i = i + 1;
    }
    true
}

/// Whether `ext` (without the dot) is one of the video extensions, compared
/// ASCII case-insensitively.
pub fn is_video_extension(ext: &str) -> (r: bool)
    ensures
        r == is_video_ext(ext@),
{
    let e = chars_of(ext);
    let r = eq_ignore_case_lower(&e, &['m', 'o', 'v']) || eq_ignore_case_lower(&e, &['m', 'p', '4'])
        || eq_ignore_case_lower(&e, &['m', '4', 'v']) || eq_ignore_case_lower(
        &e,
        &['w', 'e', 'b', 'm'],
    ) || eq_ignore_case_lower(&e, &['m', 'k', 'v']) || eq_ignore_case_lower(&e, &['a', 'v', 'i']);
    proof {
        let v = video_exts();
        assert(seq!['m', 'o', 'v'] == v[0]);
        assert(seq!['m', 'p', '4'] == v[1]);
        assert(seq!['m', '4', 'v'] == v[2]);
        assert(seq!['w', 'e', 'b', 'm'] == v[3]);
        assert(seq!['m', 'k', 'v'] == v[4]);
        assert(seq!['a', 'v', 'i'] == v[5]);
    }
    r
}

/// The name for what `Path::extension` yields for the path spelled `p`
/// (taken as UTF-8 text).
pub uninterp spec fn path_extension_of(p: Seq<char>) -> Option<Seq<char>>;

/// `Path::extension` of the path spelled `path`, as text.
#[verifier::external_body]
fn path_extension(path: &str) -> (r: Option<String>)
    ensures
        r matches Some(e) ==> path_extension_of(path@) == Some(e@),
        r is None ==> path_extension_of(path@) is None,
{
    std::path::Path::new(path).extension().and_then(|e| e.to_str()).map(|e| e.to_string())
}

pub open spec fn has_video_ext_spec(path: Seq<char>) -> bool {
    match path_extension_of(path) {
        Some(e) => is_video_ext(e),
        None => false,
    }
}

/// Whether the path has one of the video extensions.
pub fn has_video_ext(path: &str) -> (r: bool)
    ensures
        r == has_video_ext_spec(path@),
{
    match path_extension(path) {
        Some(e) => is_video_extension(e.as_str()),
        None => false,
    }
}

// ---------------------------------------------------------------------------
// Folder listing decisions

/// What a video file found in a watched folder is shown as.
#[derive(Debug, Clone, Copy, PartialEq, Eq, Structural)]
pub enum FileRole {
    /// An ordinary recording: listed as a source row.
    Source,
    /// An output whose original is gone: listed, flagged as an output.
    Orphan,
    /// An output whose original sits in the same folder: not listed (the
    /// original's row covers it).
    Covered,
}

/// The original stem of an output stem, if `s` is one.
pub open spec fn original_of(s: Seq<char>) -> Option<Seq<char>> {
    if exists|k: int| output_suffix_at(s, k) {
        Some(s.take(choose|k: int| output_suffix_at(s, k)))
    } else {
        None
    }
}

pub open spec fn role_of(stems: Seq<Seq<char>>, stem: Seq<char>) -> FileRole {
    match original_of(stem) {
        Some(o) => if stems.contains(o) {
            FileRole::Covered
        } else {
            FileRole::Orphan
        },
        None => FileRole::Source,
    }
}

pub open spec fn views(v: Seq<String>) -> Seq<Seq<char>> {
    v.map_values(|s: String| s@)
}

fn contains_text(stems: &Vec<String>, o: &str) -> (r: bool)
    ensures
        r == views(stems@).contains(o@),
{
    let mut i: usize = 0;
    while i < stems.len()
        invariant
            i <= stems.len(),
            forall|j: int| 0 <= j < i ==> stems@[j]@ != o@,
        decreases stems.len() - i,
    {
        if crate::text::str_eq(stems[i].as_str(), o) {
            assert(views(stems@)[i as int] == o@);
            return true;
        }
        i = i + 1;
    }
    proof {
        if views(stems@).contains(o@) {
            let j = choose|j: int| 0 <= j < views(stems@).len() && views(stems@)[j] == o@;
            assert(stems@[j]@ == o@);
        }
    }
    false
}

/// Classifies every file stem of one folder (`stems` holds the stems of all
/// the folder's video files): an output is covered when its original's stem
/// is among them.
pub fn classify_stems(stems: &Vec<String>) -> (r: Vec<FileRole>)
    ensures
        r.len() == stems.len(),
        forall|i: int| 0 <= i < r.len() ==> r@[i] == role_of(views(stems@), #[trigger] stems@[i]@),
{
    let mut r: Vec<FileRole> = Vec::new();
    let mut i: usize = 0;
    while i < stems.len()
        invariant
            i <= stems.len(),
            r.len() == i,
            forall|j: int| 0 <= j < i ==> r@[j] == role_of(views(stems@), #[trigger] stems@[j]@),
        decreases stems.len() - i,
    {
        let role = match tamped_original_stem(stems[i].as_str()) {
            Some(o) => {
                proof {
                    let s = stems@[i as int]@;
                    let k = choose|k: int| output_suffix_at(s, k);
                    lemma_output_suffix_unique(s, k, o@.len() as int);
                }
                if contains_text(stems, o) {
                    FileRole::Covered
                } else {
                    FileRole::Orphan
                }
            },
            None => FileRole::Source,
        };
        r.push(role);
        i = i + 1;
    }
    r
}

/// Listing order: newer first, ties kept in discovery order.
pub open spec fn listed_before(created: Seq<u64>, a: int, b: int) -> bool {
    created[a] > created[b] || (created[a] == created[b] && a < b)
}

/// The indices of the `limit` newest entries of `created`, newest first,
/// ties in their original order (a stable sort by descending time, then a
/// truncation).
pub fn newest_first(created: &Vec<u64>, limit: usize) -> (r: Vec<usize>)
    ensures
        r.len() == if created.len() < limit {
            created.len()
        } else {
            limit
        },
        forall|i: int| 0 <= i < r.len() ==> r@[i] < created.len(),
        forall|i: int, j: int|
            0 <= i < j < r.len() ==> listed_before(created@, r@[i] as int, r@[j] as int),
        forall|x: int, i: int|
            0 <= x < created.len() && !r@.contains(x as usize) && 0 <= i < r.len()
                ==> listed_before(created@, r@[i] as int, x),
{
    let n = created.len();
    let count = if n < limit {
        n
    } else {
        limit
    };
    let mut taken: Vec<bool> = Vec::new();
    let mut t: usize = 0;
    while t < n
        invariant
            t <= n,
            taken.len() == t,
            forall|j: int| 0 <= j < t ==> !taken@[j],
        decreases n - t,
    {
        taken.push(false);
        t = t + 1;
    }
    let mut r: Vec<usize> = Vec::new();
    while r.len() < count
        invariant
            n == created.len(),
            count <= n,
            taken.len() == n,
            r.len() <= count,
            forall|i: int| 0 <= i < r.len() ==> r@[i] < n,
            forall|x: int| 0 <= x < n ==> (taken@[x] <==> r@.contains(x as usize)),
            forall|i: int, j: int|
                0 <= i < j < r.len() ==> listed_before(created@, r@[i] as int, r@[j] as int),
            forall|x: int, i: int|
                0 <= x < n && !taken@[x] && 0 <= i < r.len() ==> listed_before(
                    created@,
                    r@[i] as int,
                    x,
                ),
        decreases count - r.len(),
    {
        // find the first-listed index not yet taken
        let mut best: usize = n;
        let mut x: usize = 0;
        while x < n
            invariant
                n == created.len(),
                taken.len() == n,
                x <= n,
                best == n || (best < x && !taken@[best as int]),
                best == n ==> forall|y: int| 0 <= y < x ==> taken@[y],
                best < n ==> forall|y: int|
                    0 <= y < x && !taken@[y] && y != best ==> listed_before(
                        created@,
                        best as int,
                        y,
                    ),
            decreases n - x,
        {
            if !taken[x] {
                if best == n || created[x] > created[best] {
                    best = x;
                }
            }
            x = x + 1;
        }
        proof {
            if best == n {
                // some index is untaken since r.len() < count <= n
                assert(r@.len() < n);
                lemma_some_free(r@, n as int);
                let free = choose|y: usize| (y as int) < n && !r@.contains(y);
                assert(!taken@[free as int]);
            }
        }
        let ghost old_r = r@;
        taken.set(best, true);
        r.push(best);
        proof {
            assert forall|y: int| 0 <= y < n implies (taken@[y] <==> r@.contains(y as usize)) by {
                if y == best as int {
                    assert(r@[r@.len() - 1] == best);
                } else {
                    if r@.contains(y as usize) {
                        let k = choose|k: int| 0 <= k < r@.len() && r@[k] == y as usize;
                        if k < old_r.len() {
                            assert(old_r[k] == y as usize);
                        }
                    }
                    if old_r.contains(y as usize) {
                        let k = choose|k: int| 0 <= k < old_r.len() && old_r[k] == y as usize;
                        assert(r@[k] == y as usize);
                    }
                }
            }
        }
    }
    proof {
        assert forall|x: int, i: int|
            0 <= x < created.len() && !r@.contains(x as usize) && 0 <= i < r.len()
                implies listed_before(created@, r@[i] as int, x) by {
            assert(!taken@[x]);
        }
    }
    r
}

proof fn lemma_some_free(r: Seq<usize>, n: int)
    requires
        r.len() < n,
        n <= usize::MAX + 1,
        forall|i: int| 0 <= i < r.len() ==> r[i] < n,
    ensures
        exists|y: usize| (y as int) < n && !r.contains(y),
{
    // pigeonhole: the values of r cover fewer than n indices
    let s = r.to_set();
    r.lemma_cardinality_of_set();
    let full = Set::new(|y: usize| (y as int) < n);
    if forall|y: usize| (y as int) < n ==> r.contains(y) {
        assert(full.subset_of(s)) by {
            assert forall|y: usize| full.contains(y) implies s.contains(y) by {
                assert(r.contains(y));
            }
        }
        lemma_range_set_len(n);
        vstd::set_lib::lemma_len_subset(full, s);
    }
}

proof fn lemma_range_set_len(n: int)
    requires
        n >= 0,
        n <= usize::MAX + 1,
    ensures
        Set::new(|y: usize| (y as int) < n).finite(),
        Set::new(|y: usize| (y as int) < n).len() == n,
    decreases n,
{
    let s = Set::new(|y: usize| (y as int) < n);
    if n == 0 {
        assert(s =~= Set::empty());
    } else {
        lemma_range_set_len(n - 1);
        let p = Set::new(|y: usize| (y as int) < n - 1);
        assert(s =~= p.insert((n - 1) as usize));
    }
}

/// What is known of how an orphaned output was produced: the original's size
/// and the preset come from the conversion journal when it has a record;
/// the output's size is always the file's current size.
pub struct ConversionMeta {
    pub original_bytes: Option<u64>,
    pub output_bytes: u64,
    pub preset_name: Option<String>,
}

impl ConversionMeta {
    /// An orphaned output as the scan finds it: only its size is known.
    pub fn orphan(output_bytes: u64) -> (r: ConversionMeta)
        ensures
            r.original_bytes is None,
            r.output_bytes == output_bytes,
            r.preset_name is None,
    {
        ConversionMeta { original_bytes: None, output_bytes, preset_name: None }
    }

    /// Fills in what the journal remembers of the conversion: the original's
    /// size and the preset's name.
    pub fn fill_from(&mut self, record: &crate::journal::ConversionRecord)
        ensures
            final(self).original_bytes == Some(record.input_bytes),
            final(self).output_bytes == old(self).output_bytes,
            final(self).preset_name matches Some(n) && n@ == record.preset_name@,
    {
        self.original_bytes = Some(record.input_bytes);
        self.preset_name = Some(record.preset_name.clone());
    }
}

} // verus!
