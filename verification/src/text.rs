//! Byte-string helpers shared by the filesystem drivers: ASCII case folding,
//! separator trimming and splitting of UTF-8 strings at ASCII bytes.

use vstd::prelude::*;
use vstd::string::*;
use vstd::utf8::*;

verus! {

/// ASCII upper-casing of one byte; other bytes are unchanged.
pub open spec fn upper(b: u8) -> u8 {
    if 0x61 <= b && b <= 0x7A { (b - 0x20) as u8 } else { b }
}

/// Two byte strings are equal ignoring ASCII case.
pub open spec fn eq_ci(a: Seq<u8>, b: Seq<u8>) -> bool {
    a.len() == b.len() && forall|i: int| 0 <= i < a.len() ==> upper(#[trigger] a[i]) == upper(b[i])
}

/// `s` with every leading `c` removed.
pub open spec fn trim_start(s: Seq<u8>, c: u8) -> Seq<u8>
    decreases s.len(),
{
    if s.len() > 0 && s[0] == c { trim_start(s.drop_first(), c) } else { s }
}

/// `s` with every trailing `c` removed.
pub open spec fn trim_end(s: Seq<u8>, c: u8) -> Seq<u8>
    decreases s.len(),
{
    if s.len() > 0 && s.last() == c { trim_end(s.drop_last(), c) } else { s }
}

/// Index of the first `c` in `s`, if any.
pub open spec fn first_index(s: Seq<u8>, c: u8) -> Option<int>
    decreases s.len(),
{
    if s.len() == 0 {
        None
    } else if s[0] == c {
        Some(0)
    } else {
        match first_index(s.drop_first(), c) {
            Some(i) => Some(i + 1),
            None => None,
        }
    }
}

/// Index of the last `c` in `s`, if any.
pub open spec fn last_index(s: Seq<u8>, c: u8) -> Option<int>
    decreases s.len(),
{
    if s.len() == 0 {
        None
    } else if s.last() == c {
        Some(s.len() - 1)
    } else {
        last_index(s.drop_last(), c)
    }
}

/// Number of leading bytes of `s` equal to `c`.
pub open spec fn leading_count(s: Seq<u8>, c: u8) -> int {
    s.len() - trim_start(s, c).len()
}

pub proof fn lemma_trim_start(s: Seq<u8>, c: u8)
    ensures
        trim_start(s, c).len() <= s.len(),
        trim_start(s, c) =~= s.subrange(s.len() - trim_start(s, c).len(), s.len() as int),
        trim_start(s, c).len() > 0 ==> trim_start(s, c)[0] != c,
        forall|i: int| 0 <= i < s.len() - trim_start(s, c).len() ==> s[i] == c,
    decreases s.len(),
{
    if s.len() > 0 && s[0] == c {
        lemma_trim_start(s.drop_first(), c);
        assert forall|i: int| 0 <= i < s.len() - trim_start(s, c).len() implies s[i] == c by {
            if i > 0 {
                assert(s[i] == s.drop_first()[i - 1]);
            }
        }
    }
}

pub proof fn lemma_trim_end(s: Seq<u8>, c: u8)
    ensures
        trim_end(s, c).len() <= s.len(),
        trim_end(s, c) =~= s.subrange(0, trim_end(s, c).len() as int),
        trim_end(s, c).len() > 0 ==> trim_end(s, c).last() != c,
        forall|i: int| trim_end(s, c).len() <= i < s.len() ==> s[i] == c,
    decreases s.len(),
{
    if s.len() > 0 && s.last() == c {
        lemma_trim_end(s.drop_last(), c);
        assert forall|i: int| trim_end(s, c).len() <= i < s.len() implies s[i] == c by {
            if i < s.len() - 1 {
                assert(s[i] == s.drop_last()[i]);
            }
        }
    }
}

pub proof fn lemma_first_index(s: Seq<u8>, c: u8)
    ensures
        match first_index(s, c) {
            Some(i) => 0 <= i < s.len() && s[i] == c && forall|j: int| 0 <= j < i ==> s[j] != c,
            None => forall|j: int| 0 <= j < s.len() ==> s[j] != c,
        },
    decreases s.len(),
{
    if s.len() > 0 && s[0] != c {
        lemma_first_index(s.drop_first(), c);
        match first_index(s.drop_first(), c) {
            Some(i) => {
                assert forall|j: int| 0 <= j < i + 1 implies s[j] != c by {
                    if j > 0 {
                        assert(s[j] == s.drop_first()[j - 1]);
                    }
                }
            },
            None => {
                assert forall|j: int| 0 <= j < s.len() implies s[j] != c by {
                    if j > 0 {
                        assert(s[j] == s.drop_first()[j - 1]);
                    }
                }
            },
        }
    }
}

pub proof fn lemma_last_index(s: Seq<u8>, c: u8)
    ensures
        match last_index(s, c) {
            Some(i) => 0 <= i < s.len() && s[i] == c && forall|j: int| i < j < s.len() ==> s[j] != c,
            None => forall|j: int| 0 <= j < s.len() ==> s[j] != c,
        },
    decreases s.len(),
{
    if s.len() > 0 && s.last() != c {
        lemma_last_index(s.drop_last(), c);
        match last_index(s.drop_last(), c) {
            Some(i) => {
                assert forall|j: int| i < j < s.len() implies s[j] != c by {
                    if j < s.len() - 1 {
                        assert(s[j] == s.drop_last()[j]);
                    }
                }
            },
            None => {
                assert forall|j: int| 0 <= j < s.len() implies s[j] != c by {
                    if j < s.len() - 1 {
                        assert(s[j] == s.drop_last()[j]);
                    }
                }
            },
        }
    }
}

/// Characterises `first_index` by its defining property.
pub proof fn lemma_first_index_unique(s: Seq<u8>, c: u8, i: int)
    requires
        0 <= i <= s.len(),
        forall|j: int| 0 <= j < i ==> s[j] != c,
        i < s.len() ==> s[i] == c,
    ensures
        first_index(s, c) == (if i < s.len() { Some(i) } else { None::<int> }),
{
    lemma_first_index(s, c);
}

/// Characterises `trim_start` by the number of bytes it removes.
pub proof fn lemma_trim_start_unique(s: Seq<u8>, c: u8, k: int)
    requires
        0 <= k <= s.len(),
        forall|j: int| 0 <= j < k ==> s[j] == c,
        k < s.len() ==> s[k] != c,
    ensures
        trim_start(s, c) =~= s.subrange(k, s.len() as int),
    decreases k,
{
    if k > 0 {
        assert forall|j: int| 0 <= j < k - 1 implies s.drop_first()[j] == c by {
            assert(s.drop_first()[j] == s[j + 1]);
        }
        lemma_trim_start_unique(s.drop_first(), c, k - 1);
        assert(s.drop_first().subrange(k - 1, s.len() - 1) =~= s.subrange(k, s.len() as int));
    } else {
        assert(s.subrange(0, s.len() as int) =~= s);
    }
}

/// Characterises `trim_end` by the number of bytes it keeps.
pub proof fn lemma_trim_end_unique(s: Seq<u8>, c: u8, k: int)
    requires
        0 <= k <= s.len(),
        forall|j: int| k <= j < s.len() ==> s[j] == c,
        k > 0 ==> s[k - 1] != c,
    ensures
        trim_end(s, c) =~= s.subrange(0, k),
    decreases s.len() - k,
{
    if k < s.len() {
        assert forall|j: int| k <= j < s.len() - 1 implies s.drop_last()[j] == c by {
            assert(s.drop_last()[j] == s[j]);
        }
        lemma_trim_end_unique(s.drop_last(), c, k);
        assert(s.drop_last().subrange(0, k) =~= s.subrange(0, k));
    } else {
        assert(s.subrange(0, s.len() as int) =~= s);
    }
}

/// ASCII upper-casing of one byte.
pub fn upper_byte(b: u8) -> (r: u8)
    ensures
        r == upper(b),
{
    if 0x61 <= b && b <= 0x7A { b - 0x20 } else { b }
}

/// Number of leading `c` bytes in `s`.
pub fn count_leading(s: &[u8], c: u8) -> (k: usize)
    ensures
        k <= s@.len(),
        forall|j: int| 0 <= j < k ==> s@[j] == c,
        k < s@.len() ==> s@[k as int] != c,
        trim_start(s@, c) =~= s@.subrange(k as int, s@.len() as int),
{
    let mut k: usize = 0;
    while k < s.len() && s[k] == c
        invariant
            k <= s@.len(),
            forall|j: int| 0 <= j < k ==> s@[j] == c,
        decreases s@.len() - k,
    {
        k = k + 1;
    }
    proof {
        lemma_trim_start_unique(s@, c, k as int);
    }
    k
}

/// Length of `s` once every trailing `c` byte is dropped.
pub fn count_kept_before_trailing(s: &[u8], c: u8) -> (k: usize)
    ensures
        k <= s@.len(),
        forall|j: int| k <= j < s@.len() ==> s@[j] == c,
        k > 0 ==> s@[k - 1] != c,
        trim_end(s@, c) =~= s@.subrange(0, k as int),
{
    let mut k: usize = s.len();
    while k > 0 && s[k - 1] == c
        invariant
            k <= s@.len(),
            forall|j: int| k <= j < s@.len() ==> s@[j] == c,
        decreases k,
    {
        k = k - 1;
    }
    proof {
        lemma_trim_end_unique(s@, c, k as int);
    }
    k
}

/// Position of the first `c` in `s` at or after `from`, or `s.len()`.
pub fn find_from(s: &[u8], from: usize, c: u8) -> (i: usize)
    requires
        from <= s@.len(),
    ensures
        from <= i <= s@.len(),
        forall|j: int| from <= j < i ==> s@[j] != c,
        i < s@.len() ==> s@[i as int] == c,
{
    let mut i = from;
    while i < s.len() && s[i] != c
        invariant
            from <= i <= s@.len(),
            forall|j: int| from <= j < i ==> s@[j] != c,
        decreases s@.len() - i,
    {
        i = i + 1;
    }
    i
}

/// Position of the last `c` in `s`, if any.
pub fn rfind(s: &[u8], c: u8) -> (r: Option<usize>)
    ensures
        r == match last_index(s@, c) {
            Some(i) => Some(i as usize),
            None => None::<usize>,
        },
{
    let mut i = s.len();
    while i > 0 && s[i - 1] != c
        invariant
            i <= s@.len(),
            forall|j: int| i <= j < s@.len() ==> s@[j] != c,
        decreases i,
    {
        i = i - 1;
    }
    proof {
        lemma_last_index(s@, c);
    }
    if i == 0 {
        None
    } else {
        Some(i - 1)
    }
}

/// Case-insensitive ASCII comparison of two byte strings.
pub fn bytes_eq_ci(a: &[u8], b: &[u8]) -> (r: bool)
    ensures
        r == eq_ci(a@, b@),
{
    if a.len() != b.len() {
        return false;
    }
    let mut i: usize = 0;
    while i < a.len()
        invariant
            a@.len() == b@.len(),
            i <= a@.len(),
            forall|j: int| 0 <= j < i ==> upper(#[trigger] a@[j]) == upper(b@[j]),
        decreases a@.len() - i,
    {
        if upper_byte(a[i]) != upper_byte(b[i]) {
            return false;
        }
        i = i + 1;
    }
    true
}

/// Exact comparison of two byte strings.
pub fn bytes_eq(a: &[u8], b: &[u8]) -> (r: bool)
    ensures
        r == (a@ == b@),
{
    if a.len() != b.len() {
        return false;
    }
    let mut i: usize = 0;
    while i < a.len()
        invariant
            a@.len() == b@.len(),
            i <= a@.len(),
            forall|j: int| 0 <= j < i ==> a@[j] == b@[j],
        decreases a@.len() - i,
    {
        if a[i] != b[i] {
            return false;
        }
        i = i + 1;
    }
    assert(a@ =~= b@);
    true
}

/// In valid UTF-8, a byte that follows an ASCII byte starts a new scalar.
pub proof fn lemma_after_ascii_not_continuation(b: Seq<u8>, i: int)
    requires
        valid_utf8(b),
        0 < i < b.len(),
        b[i - 1] < 0x80,
    ensures
        !is_continuation_byte(b[i]),
    decreases b.len(),
{
    let l = length_of_first_scalar(b);
    let p = pop_first_scalar(b);
    assert(p.len() == b.len() - l);
    if i < l {
        assert(false);
    } else if i == l {
        if p.len() > 0 {
            assert(valid_utf8(p));
            reveal_with_fuel(valid_utf8, 2);
            assert(valid_first_scalar(p));
            assert(p[0] == b[i]);
        }
    } else {
        assert(p[i - l] == b[i]);
        assert(p[i - l - 1] == b[i - 1]);
        lemma_after_ascii_not_continuation(p, i - l);
    }
}

/// Split a string at byte `mid`: its start or end, an ASCII byte, or the
/// byte after an ASCII byte.
pub fn split_str(s: &str, mid: usize) -> (r: (&str, &str))
    requires
        mid <= s.spec_bytes().len(),
        mid == 0 || mid == s.spec_bytes().len() || s.spec_bytes()[mid as int] < 0x80
            || s.spec_bytes()[mid - 1] < 0x80,
    ensures
        r.0.spec_bytes() =~= s.spec_bytes().subrange(0, mid as int),
        r.1.spec_bytes() =~= s.spec_bytes().subrange(mid as int, s.spec_bytes().len() as int),
{
    proof {
        let b = s.spec_bytes();
        encode_utf8_valid_utf8(s@);
        is_char_boundary_start_end_of_seq(b);
        if 0 < mid < b.len() {
            if b[mid - 1] < 0x80 {
                lemma_after_ascii_not_continuation(b, mid as int);
            }
            is_char_boundary_iff_not_is_continuation_byte(b, mid as int);
        }
    }
    s.split_at(mid)
}

/// Bytes of a string.
pub fn str_bytes(s: &str) -> (r: &[u8])
    ensures
        r@ == s.spec_bytes(),
{
    s.as_bytes()
}

/// `core::str::from_utf8`: succeeds exactly when the bytes are valid UTF-8,
/// and then returns a string with those bytes.
#[verifier::external_body]
pub fn utf8_str<'a>(v: &'a [u8]) -> (r: Option<&'a str>)
    ensures
        match r {
            Some(s) => s.spec_bytes() == v@,
            None => !valid_utf8(v@),
        },
{
    core::str::from_utf8(v).ok()
}

} // verus!
