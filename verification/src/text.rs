//! Character-level text handling for PLY headers: UTF-8 decoding of a line,
//! trimming and splitting on Unicode white space, and decimal `usize` parsing.
use vstd::prelude::*;
use vstd::string::StringSliceAdditionalSpecFns;
use vstd::utf8::*;

verus! {

/// Whether a character has Unicode's `White_Space` property (what `char::is_whitespace`
/// decides, and so what `str::trim` and `str::split_whitespace` cut on).
pub open spec fn is_space(c: char) -> bool {
    let u = c as u32;
    ||| u == 0x20
    ||| (0x09 <= u && u <= 0x0d)
    ||| u == 0x85
    ||| u == 0xa0
    ||| u == 0x1680
    ||| (0x2000 <= u && u <= 0x200a)
    ||| u == 0x2028
    ||| u == 0x2029
    ||| u == 0x202f
    ||| u == 0x205f
    ||| u == 0x3000
}

/// `s` with its leading white space removed.
pub open spec fn trim_start(s: Seq<char>) -> Seq<char>
    decreases s.len(),
{
    if s.len() > 0 && is_space(s[0]) {
        trim_start(s.drop_first())
    } else {
        s
    }
}

/// `s` with its trailing white space removed.
pub open spec fn trim_end(s: Seq<char>) -> Seq<char>
    decreases s.len(),
{
    if s.len() > 0 && is_space(s.last()) {
        trim_end(s.drop_last())
    } else {
        s
    }
}

/// `s` with white space removed at both ends.
pub open spec fn trim(s: Seq<char>) -> Seq<char> {
    trim_end(trim_start(s))
}

/// Number of leading characters of `s` that are not white space.
pub open spec fn token_len(s: Seq<char>) -> nat
    decreases s.len(),
{
    if s.len() > 0 && !is_space(s[0]) {
        1 + token_len(s.drop_first())
    } else {
        0
    }
}

/// The token of index `n` (from 0) when `s` is split into maximal runs of
/// characters that are not white space, if `s` has that many.
pub open spec fn nth_token(s: Seq<char>, n: nat) -> Option<Seq<char>>
    decreases n,
{
    let t = trim_start(s);
    if t.len() == 0 {
        None
    } else if n == 0 {
        Some(t.take(token_len(t) as int))
    } else {
        nth_token(t.skip(token_len(t) as int), (n - 1) as nat)
    }
}

/// Whether `s` begins with `p`.
pub open spec fn starts_with(s: Seq<char>, p: Seq<char>) -> bool {
    s.len() >= p.len() && s.take(p.len() as int) == p
}

/// Whether `c` is one of the ASCII digits `0` to `9`.
pub open spec fn is_digit(c: char) -> bool {
    0x30 <= (c as u32) && (c as u32) <= 0x39
}

/// Whether every character of `d` is an ASCII digit.
pub open spec fn all_digits(d: Seq<char>) -> bool {
    forall|i: int| 0 <= i < d.len() ==> #[trigger] is_digit(d[i])
}

/// The number that the ASCII digits `d` stand for in base ten.
pub open spec fn decimal_value(d: Seq<char>) -> int
    decreases d.len(),
{
    if d.len() == 0 {
        0
    } else {
        decimal_value(d.drop_last()) * 10 + ((d.last() as u32) - 0x30)
    }
}

/// The digits of an unsigned number: `s` without one leading `+`.
pub open spec fn unsigned_digits(s: Seq<char>) -> Seq<char> {
    if s.len() > 0 && (s[0] as u32) == 0x2b {
        s.drop_first()
    } else {
        s
    }
}

/// What `str::parse::<usize>` gives for `s`: an optional `+`, then at least one
/// ASCII digit and nothing else, standing for a number that fits in a `usize`.
pub open spec fn parse_usize(s: Seq<char>) -> Option<usize> {
    let d = unsigned_digits(s);
    if d.len() > 0 && all_digits(d) && decimal_value(d) <= usize::MAX {
        Some(decimal_value(d) as usize)
    } else {
        None
    }
}

/// Decides `is_space`.
pub fn is_whitespace(c: char) -> (res: bool)
    ensures
        res == is_space(c),
{
    let u = c as u32;
    u == 0x20 || (0x09 <= u && u <= 0x0d) || u == 0x85 || u == 0xa0 || u == 0x1680 || (0x2000
        <= u && u <= 0x200a) || u == 0x2028 || u == 0x2029 || u == 0x202f || u == 0x205f || u
        == 0x3000
}

#[verifier::external_type_specification]
#[verifier::external_body]
pub struct ExUtf8Error(std::str::Utf8Error);

/// Calls `std::str::from_utf8`, which by its documentation succeeds exactly on
/// well-formed UTF-8 and then gives the string slice made of those bytes.
#[verifier::external_body]
fn str_from_utf8(v: &[u8]) -> (res: Result<&str, std::str::Utf8Error>)
    ensures
        res is Ok <==> valid_utf8(v@),
        res matches Ok(s) ==> s.spec_bytes() == v@,
{
    std::str::from_utf8(v)
}

/// The characters of `s`, in order.
fn chars_of(s: &str) -> (out: Vec<char>)
    ensures
        out@ == s@,
{
    let mut out: Vec<char> = Vec::new();
    for c in it: s.chars()
        invariant
            out@ == it.seq().take(it.index() as int),
    {
        out.push(c);
    }
    out
}

/// Decodes `v` as UTF-8: `None` exactly when `v` is not well-formed UTF-8.
pub fn decode_utf8_line(v: &[u8]) -> (res: Option<Vec<char>>)
    ensures
        res is Some <==> valid_utf8(v@),
        res matches Some(cs) ==> cs@ == decode_utf8(v@),
{
    match str_from_utf8(v) {
        Ok(s) => {
            let cs = chars_of(s);
            proof {
                encode_utf8_decode_utf8(s@);
            }
            Some(cs)
        },
        Err(_) => None,
    }
}


/// The characters of `s` without white space at either end (as `str::trim`).
pub fn trimmed(s: &Vec<char>) -> (res: Vec<char>)
    ensures
        res@ == trim(s@),
{
    let len = s.len();
    let mut i: usize = 0;
    assert(s@.subrange(0, len as int) =~= s@);
    while i < len && is_whitespace(s[i])
        invariant
            i <= len,
            len == s@.len(),
            trim_start(s@) == trim_start(s@.subrange(i as int, len as int)),
        decreases len - i,
    {
        assert(s@.subrange(i as int, len as int).drop_first() =~= s@.subrange(
            i + 1,
            len as int,
        ));
        i = i + 1;
    }
    let mut j: usize = len;
    while j > i && is_whitespace(s[j - 1])
        invariant
            i <= j <= len,
            len == s@.len(),
            trim_start(s@) == s@.subrange(i as int, len as int),
            trim(s@) == trim_end(s@.subrange(i as int, j as int)),
        decreases j,
    {
        assert(s@.subrange(i as int, j as int).drop_last() =~= s@.subrange(
            i as int,
            j - 1,
        ));
        j = j - 1;
    }
    let mut out: Vec<char> = Vec::new();
    let mut k: usize = i;
    while k < j
        invariant
            i <= k <= j <= len,
            len == s@.len(),
            out@ == s@.subrange(i as int, k as int),
        decreases j - k,
    {
        out.push(s[k]);
        assert(out@ =~= s@.subrange(i as int, k + 1));
        k = k + 1;
    }
    out
}

/// Where the token of index `n` of `s` lies (as `split_whitespace().nth(n)`).
pub fn nth_token_range(s: &Vec<char>, n: usize) -> (res: Option<(usize, usize)>)
    ensures
        match res {
            None => nth_token(s@, n as nat) is None,
            Some((a, b)) => a <= b <= s@.len() && nth_token(s@, n as nat) == Some(
                s@.subrange(a as int, b as int),
            ),
        },
{
    let len = s.len();
    let mut pos: usize = 0;
    let mut count: usize = 0;
    assert(s@.subrange(0, len as int) =~= s@);
    loop
        invariant
            pos <= len,
            count <= n,
            len == s@.len(),
            nth_token(s@, n as nat) == nth_token(
                s@.subrange(pos as int, len as int),
                (n - count) as nat,
            ),
        decreases len - pos,
    {
        let ghost rest = s@.subrange(pos as int, len as int);
        let mut i: usize = pos;
        while i < len && is_whitespace(s[i])
            invariant
                pos <= i <= len,
                len == s@.len(),
                trim_start(rest) == trim_start(s@.subrange(i as int, len as int)),
            decreases len - i,
        {
            assert(s@.subrange(i as int, len as int).drop_first() =~= s@.subrange(
                i + 1,
                len as int,
            ));
            i = i + 1;
        }
        let ghost t = s@.subrange(i as int, len as int);
        assert(trim_start(t) == t);
        if i == len {
            return None;
        }
        let mut j: usize = i;
        while j < len && !is_whitespace(s[j])
            invariant
                i <= j <= len,
                len == s@.len(),
                token_len(t) == (j - i) + token_len(s@.subrange(j as int, len as int)),
            decreases len - j,
        {
            assert(s@.subrange(j as int, len as int).drop_first() =~= s@.subrange(
                j + 1,
                len as int,
            ));
            j = j + 1;
        }
        assert(token_len(s@.subrange(j as int, len as int)) == 0);
        assert(t.take(token_len(t) as int) =~= s@.subrange(i as int, j as int));
        assert(t.skip(token_len(t) as int) =~= s@.subrange(j as int, len as int));
        if count == n {
            return Some((i, j));
        }
        count = count + 1;
        pos = j;
    }
}

/// Whether `s` begins with the characters `p`.
pub fn starts_with_chars(s: &Vec<char>, p: &[char]) -> (res: bool)
    ensures
        res == starts_with(s@, p@),
{
    if s.len() < p.len() {
        return false;
    }
    let mut i: usize = 0;
    while i < p.len()
        invariant
            i <= p@.len() <= s@.len(),
            forall|k: int| 0 <= k < i ==> s@[k] == p@[k],
        decreases p@.len() - i,
    {
        if s[i] != p[i] {
            assert(s@.take(p@.len() as int)[i as int] != p@[i as int]);
            return false;
        }
        i = i + 1;
    }
    assert(s@.take(p@.len() as int) =~= p@);
    true
}

/// Whether `s` is exactly the characters `p`.
pub fn equals_chars(s: &Vec<char>, p: &[char]) -> (res: bool)
    ensures
        res == (s@ == p@),
{
    if s.len() != p.len() {
        return false;
    }
    let r = starts_with_chars(s, p);
    assert(s@.take(p@.len() as int) =~= s@);
    r
}

/// The value of the digits `d` is never negative.
pub proof fn lemma_decimal_value_nonneg(d: Seq<char>)
    requires
        all_digits(d),
    ensures
        decimal_value(d) >= 0,
    decreases d.len(),
{
    if d.len() > 0 {
        assert(all_digits(d.drop_last())) by {
            assert forall|i: int| 0 <= i < d.drop_last().len() implies #[trigger] is_digit(
                d.drop_last()[i],
            ) by {
                assert(is_digit(d[i]));
            }
        }
        lemma_decimal_value_nonneg(d.drop_last());
        assert(is_digit(d[d.len() - 1]));
    }
}

/// A string of digits stands for at least as much as each of its prefixes.
pub proof fn lemma_decimal_value_prefix(d: Seq<char>, m: int)
    requires
        all_digits(d),
        0 <= m <= d.len(),
    ensures
        decimal_value(d.take(m)) <= decimal_value(d),
    decreases d.len(),
{
    if m < d.len() {
        let p = d.drop_last();
        assert(all_digits(p)) by {
            assert forall|i: int| 0 <= i < p.len() implies #[trigger] is_digit(p[i]) by {
                assert(is_digit(d[i]));
            }
        }
        lemma_decimal_value_prefix(p, m);
        assert(p.take(m) =~= d.take(m));
        lemma_decimal_value_nonneg(p);
        assert(is_digit(d[d.len() - 1]));
    } else {
        assert(d.take(m) =~= d);
    }
}

/// Parses the characters `s[a..b]` as `str::parse::<usize>` does.
pub fn parse_usize_range(s: &Vec<char>, a: usize, b: usize) -> (res: Option<usize>)
    requires
        a <= b <= s@.len(),
    ensures
        res == parse_usize(s@.subrange(a as int, b as int)),
{
    let ghost tok = s@.subrange(a as int, b as int);
    let mut start = a;
    if a < b && (s[a] as u32) == 0x2b {
        start = a + 1;
    }
    let ghost d = s@.subrange(start as int, b as int);
    assert(unsigned_digits(tok) =~= d);
    if start == b {
        return None;
    }
    let mut value: usize = 0;
    let mut i: usize = start;
    while i < b
        invariant
            start <= i <= b <= s@.len(),
            d == s@.subrange(start as int, b as int),
            tok == s@.subrange(a as int, b as int),
            unsigned_digits(tok) == d,
            all_digits(d.take(i - start)),
            value == decimal_value(d.take(i - start)),
        decreases b - i,
    {
        let c = s[i];
        let u = c as u32;
        let ghost k = i - start;
        if u < 0x30 || u > 0x39 {
            assert(!is_digit(d[k]));
            assert(!all_digits(d));
            return None;
        }
        assert(d.take(k + 1).drop_last() =~= d.take(k));
        assert(all_digits(d.take(k + 1))) by {
            assert forall|x: int| 0 <= x < k + 1 implies #[trigger] is_digit(d.take(k + 1)[x]) by {
                if x < k {
                    assert(is_digit(d.take(k)[x]));
                }
            }
        }
        assert(d.take(k + 1).last() == c);
        assert(decimal_value(d.take(k + 1)) == decimal_value(d.take(k)) * 10 + (u - 0x30));
        let digit = (u - 0x30) as usize;
        match value.checked_mul(10) {
            Some(v10) => match v10.checked_add(digit) {
                Some(next) => {
                    value = next;
                },
                None => {
                    proof {
                        if all_digits(d) {
                            lemma_decimal_value_prefix(d, k + 1);
                        }
                    }
                    return None;
                },
            },
            None => {
                proof {
                    if all_digits(d) {
                        lemma_decimal_value_prefix(d, k + 1);
                        lemma_decimal_value_nonneg(d.take(k + 1));
                    }
                }
                return None;
            },
        }
        i = i + 1;
    }
    assert(d.take(b - start) =~= d);
    Some(value)
}


/// The characters `s[a..b]`, as a new vector.
pub fn chars_in_range(s: &Vec<char>, a: usize, b: usize) -> (out: Vec<char>)
    requires
        a <= b <= s@.len(),
    ensures
        out@ == s@.subrange(a as int, b as int),
{
    let mut out: Vec<char> = Vec::new();
    let mut k: usize = a;
    while k < b
        invariant
            a <= k <= b <= s@.len(),
            out@ == s@.subrange(a as int, k as int),
        decreases b - k,
    {
        out.push(s[k]);
        assert(out@ =~= s@.subrange(a as int, k + 1));
        k = k + 1;
    }
    out
}

/// Whether `s` and `t` hold the same characters.
pub fn same_chars(s: &Vec<char>, t: &Vec<char>) -> (res: bool)
    ensures
        res == (s@ == t@),
{
    if s.len() != t.len() {
        return false;
    }
    let mut i: usize = 0;
    while i < s.len()
        invariant
            i <= s@.len(),
            s@.len() == t@.len(),
            forall|k: int| 0 <= k < i ==> s@[k] == t@[k],
        decreases s@.len() - i,
    {
        if s[i] != t[i] {
            return false;
        }
        i = i + 1;
    }
    assert(s@ =~= t@);
    true
}

} // verus!
