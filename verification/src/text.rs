//! Character-sequence helpers: the string operations of `std` that the
//! library relies on, stated over `Seq<char>` and implemented with proofs.

use vstd::prelude::*;

verus! {

/// `pat` occurs in `hay` starting at position `i`.
pub open spec fn occurs_at(hay: Seq<char>, pat: Seq<char>, i: int) -> bool {
    0 <= i && i + pat.len() <= hay.len() && hay.subrange(i, i + pat.len()) == pat
}

/// `pat` is a contiguous piece of `hay` (what `str::contains` decides).
pub open spec fn is_substring(pat: Seq<char>, hay: Seq<char>) -> bool {
    exists|i: int| occurs_at(hay, pat, i)
}

/// The lowercase mapping of Unicode that `str::to_lowercase` applies.
pub uninterp spec fn lowercase(s: Seq<char>) -> Seq<char>;

/// The text that `str::to_lowercase` gives for `s`: empty for the empty
/// text, `lowercase(s)` otherwise (the two agree; see `to_lowercase`).
pub open spec fn lowercased(s: Seq<char>) -> Seq<char> {
    if s.len() == 0 {
        Seq::empty()
    } else {
        lowercase(s)
    }
}

/// Trusted: `str::to_lowercase` returns a new string; its content is a
/// function of the input alone (Unicode's case tables, no locale), named
/// `lowercase` here. Of that content only this is stated: it maps each
/// character to one or more characters, so the result is empty exactly
/// where the input is.
#[verifier::external_body]
pub(crate) fn to_lowercase(s: &str) -> (r: String)
    ensures
        r@ == lowercase(s@),
        s@.len() == 0 <==> r@.len() == 0,
{
    s.to_lowercase()
}

/// Trusted: `String::push` appends the character to the end of the string.
#[verifier::external_body]
pub(crate) fn push_char(s: &mut String, c: char)
    ensures
        final(s)@ == old(s)@.push(c),
{
    s.push(c);
}

/// Trusted: `String::pop` removes and returns the last character, or
/// returns `None` and leaves an empty string as it is.
#[verifier::external_body]
pub(crate) fn pop_char(s: &mut String) -> (r: Option<char>)
    ensures
        old(s)@.len() == 0 ==> r is None && final(s)@ == old(s)@,
        old(s)@.len() > 0 ==> r == Some(old(s)@.last()) && final(s)@ == old(s)@.drop_last(),
{
    s.pop()
}

/// The characters of `s`, in order.
pub fn chars_of(s: &str) -> (v: Vec<char>)
    ensures
        v@ == s@,
{
    let n: usize = s.unicode_len();
    let mut v: Vec<char> = Vec::new();
    let mut i: usize = 0;
    while i < n
        invariant
            n == s@.len(),
            i <= n,
            v@ == s@.take(i as int),
        decreases n - i,
    {
        let c = s.get_char(i);
        v.push(c);
        i = i + 1;
        assert(v@ =~= s@.take(i as int));
    }
    assert(v@ =~= s@);
    v
}

/// A string holding exactly the characters of `v`.
pub fn string_from_chars(v: &Vec<char>) -> (s: String)
    ensures
        s@ == v@,
{
    let mut s = String::new();
    let mut i: usize = 0;
    while i < v.len()
        invariant
            i <= v.len(),
            s@ == v@.take(i as int),
        decreases v.len() - i,
    {
        push_char(&mut s, v[i]);
        i = i + 1;
        assert(s@ =~= v@.take(i as int));
    }
    assert(v@.take(v.len() as int) =~= v@);
    s
}

/// Whether `pat` occurs in `hay`.
pub fn contains_chars(hay: &Vec<char>, pat: &Vec<char>) -> (r: bool)
    ensures
        r == is_substring(pat@, hay@),
{
    let n: usize = hay.len();
    let m: usize = pat.len();
    if m > n {
        assert forall|i: int| !occurs_at(hay@, pat@, i) by {}
        return false;
    }
    if m == 0 {
        assert(hay@.subrange(0, 0) =~= pat@);
        assert(occurs_at(hay@, pat@, 0));
        return true;
    }
    let mut i: usize = 0;
    while i <= n - m
        invariant
            n == hay.len(),
            m == pat.len(),
            0 < m <= n,
            i <= n - m + 1,
            forall|j: int| 0 <= j < i ==> !occurs_at(hay@, pat@, j),
        decreases n - m + 1 - i,
    {
        let mut k: usize = 0;
        let mut same: bool = true;
        while k < m
            invariant
                n == hay.len(),
                m == pat.len(),
                i + m <= n,
                k <= m,
                same ==> forall|t: int| 0 <= t < k ==> hay@[i + t] == pat@[t],
                !same ==> !occurs_at(hay@, pat@, i as int),
            decreases m - k,
        {
            if same && hay[i + k] != pat[k] {
                same = false;
                assert(hay@.subrange(i as int, i + m)[k as int] != pat@[k as int]);
            }
            k = k + 1;
        }
        if same {
            assert(hay@.subrange(i as int, i + m) =~= pat@);
            assert(occurs_at(hay@, pat@, i as int));
            return true;
        }
        i = i + 1;
    }
    assert forall|j: int| !occurs_at(hay@, pat@, j) by {
        if occurs_at(hay@, pat@, j) {
            assert(0 <= j < i);
        }
    }
    false
}


// ---------------------------------------------------------------------
// Decimal formatting (what `to_string` gives for an unsigned integer)
// ---------------------------------------------------------------------

/// The decimal representation of `n` as a string.
pub fn decimal_string(n: u64) -> (s: String)
    ensures
        s@ == decimal(n as nat),
{
    let v = decimal_chars(n);
    string_from_chars(&v)
}

/// The ASCII digit for `d` (`d < 10`).
pub open spec fn digit_char(d: nat) -> char {
    (48 + d) as char
}

/// The decimal representation of `n`, most significant digit first and
/// without leading zeros (zero is the single digit `0`).
pub open spec fn decimal(n: nat) -> Seq<char>
    decreases n,
{
    if n < 10 {
        seq![digit_char(n)]
    } else {
        decimal(n / 10).push(digit_char(n % 10))
    }
}

fn digit_to_char(d: u64) -> (c: char)
    requires
        d < 10,
    ensures
        c == digit_char(d as nat),
{
    let b: u8 = d as u8;
    let c: char = (b + 48u8) as char;
    c
}

/// The decimal digits of `n`.
pub fn decimal_chars(n: u64) -> (v: Vec<char>)
    ensures
        v@ == decimal(n as nat),
{
    let mut x: u64 = n;
    let mut suffix: Vec<char> = Vec::new();
    while x >= 10
        invariant
            decimal(n as nat) == decimal(x as nat) + suffix@,
        decreases x,
    {
        let ghost old_suffix = suffix@;
        let d: u64 = x % 10;
        let c = digit_to_char(d);
        suffix.insert(0, c);
        assert(decimal(x as nat) == decimal((x / 10) as nat).push(digit_char((x % 10) as nat)));
        assert(decimal(x as nat) + old_suffix =~= decimal((x / 10) as nat) + suffix@);
        x = x / 10;
    }
    let mut v: Vec<char> = Vec::new();
    v.push(digit_to_char(x));
    v.append(&mut suffix);
    assert(v@ =~= decimal(n as nat));
    v
}


// ---------------------------------------------------------------------
// Unsigned integer parsing (what `from_str_radix` and `parse` accept)
// ---------------------------------------------------------------------

/// The value of `c` as a digit in base `radix` (`char::to_digit`).
pub open spec fn digit_value(c: char, radix: nat) -> Option<nat> {
    let code = c as u32;
    let v: int = if 48 <= code <= 57 {
        code - 48
    } else if 97 <= code <= 122 {
        code - 97 + 10
    } else if 65 <= code <= 90 {
        code - 65 + 10
    } else {
        radix as int
    };
    if v < radix {
        Some(v as nat)
    } else {
        None
    }
}

/// Every character of `s` is a digit in base `radix`.
pub open spec fn all_digits(s: Seq<char>, radix: nat) -> bool {
    forall|i: int| 0 <= i < s.len() ==> (#[trigger] digit_value(s[i], radix)) is Some
}

/// The number that the digits `s` denote in base `radix`.
pub open spec fn digits_value(s: Seq<char>, radix: nat) -> nat
    decreases s.len(),
{
    if s.len() == 0 {
        0
    } else {
        digits_value(s.drop_last(), radix) * radix + match digit_value(s.last(), radix) {
            Some(d) => d,
            None => 0,
        }
    }
}

/// The digits of an unsigned number: one leading `+` is dropped.
pub open spec fn unsigned_digits(s: Seq<char>) -> Seq<char> {
    if s.len() > 0 && s[0] == '+' {
        s.drop_first()
    } else {
        s
    }
}

/// The value that `from_str_radix(s, radix)` gives for an unsigned type
/// whose largest value is `max`, or `None` where it returns an error: an
/// empty string, a lone `+`, a character that is no digit, or a value
/// above `max`.
pub open spec fn parse_unsigned(s: Seq<char>, radix: nat, max: nat) -> Option<nat> {
    let d = unsigned_digits(s);
    if d.len() > 0 && all_digits(d, radix) && digits_value(d, radix) <= max {
        Some(digits_value(d, radix))
    } else {
        None
    }
}

fn digit_of(c: char, radix: u64) -> (r: Option<u64>)
    requires
        2 <= radix <= 36,
    ensures
        match r {
            Some(v) => digit_value(c, radix as nat) == Some(v as nat),
            None => digit_value(c, radix as nat) is None,
        },
{
    let code: u32 = c as u32;
    let v: u64 = if 48 <= code && code <= 57 {
        (code - 48) as u64
    } else if 97 <= code && code <= 122 {
        (code - 97 + 10) as u64
    } else if 65 <= code && code <= 90 {
        (code - 65 + 10) as u64
    } else {
        radix
    };
    if v < radix {
        Some(v)
    } else {
        None
    }
}

proof fn lemma_digits_value_prefix(s: Seq<char>, radix: nat, k: int)
    requires
        radix >= 1,
        all_digits(s, radix),
        0 <= k <= s.len(),
    ensures
        digits_value(s.take(k), radix) <= digits_value(s, radix),
    decreases s.len(),
{
    if k == s.len() {
        assert(s.take(k) =~= s);
    } else {
        let p = s.drop_last();
        assert(all_digits(p, radix)) by {
            assert forall|i: int| 0 <= i < p.len() implies (#[trigger] digit_value(p[i], radix)) is Some by {
                assert(p[i] == s[i]);
            }
        }
        lemma_digits_value_prefix(p, radix, k);
        assert(p.take(k) =~= s.take(k));
        let a = digits_value(p, radix);
        let d: nat = match digit_value(s.last(), radix) {
            Some(d) => d,
            None => 0,
        };
        assert(a * radix + d >= a) by (nonlinear_arith)
            requires
                radix >= 1,
        ;
    }
}

proof fn lemma_step_bound(v: int, r: int, d: int, max: int)
    requires
        r > 0,
        0 <= d <= max,
        v >= 0,
    ensures
        (v <= (max - d) / r) <==> (v * r + d <= max),
{
    let q = (max - d) / r;
    let m = (max - d) % r;
    vstd::arithmetic::div_mod::lemma_fundamental_div_mod(max - d, r);
    vstd::arithmetic::div_mod::lemma_mod_bound(max - d, r);
    if v <= q {
        assert(v * r <= q * r) by (nonlinear_arith)
            requires
                v <= q,
                r > 0,
        ;
        assert(q * r == r * q) by (nonlinear_arith);
    } else {
        assert(v * r >= (q + 1) * r) by (nonlinear_arith)
            requires
                v >= q + 1,
                r > 0,
        ;
        assert((q + 1) * r == r * q + r) by (nonlinear_arith);
    }
}

/// Parses `s` as an unsigned number in base `radix`, accepting exactly what
/// `from_str_radix` accepts for an unsigned type whose largest value is `max`.
pub fn parse_unsigned_chars(s: &Vec<char>, radix: u64, max: u64) -> (r: Option<u64>)
    requires
        2 <= radix <= 36,
    ensures
        match r {
            Some(v) => parse_unsigned(s@, radix as nat, max as nat) == Some(v as nat),
            None => parse_unsigned(s@, radix as nat, max as nat) is None,
        },
{
    let n: usize = s.len();
    let start: usize = if n > 0 && s[0] == '+' {
        1
    } else {
        0
    };
    let ghost d = unsigned_digits(s@);
    assert(d =~= s@.skip(start as int));
    if start == n {
        return None;
    }
    let mut v: u64 = 0;
    let mut i: usize = start;
    assert(d.take(0) =~= Seq::<char>::empty());
    while i < n
        invariant
            n == s@.len(),
            start <= i <= n,
            d == s@.skip(start as int),
            d == unsigned_digits(s@),
            2 <= radix <= 36,
            v <= max,
            v as nat == digits_value(d.take(i - start), radix as nat),
            forall|j: int| 0 <= j < i - start ==> (#[trigger] digit_value(d[j], radix as nat)) is Some,
        decreases n - i,
    {
        let dig = match digit_of(s[i], radix) {
            Some(x) => x,
            None => {
                assert(d[i - start] == s@[i as int]);
                assert(digit_value(d[i - start], radix as nat) is None);
                assert(!all_digits(d, radix as nat));
                assert(parse_unsigned(s@, radix as nat, max as nat) is None);
                return None;
            },
        };
        let ghost j: int = i - start;
        assert(d[j] == s@[i as int]);
        assert(d.take(j + 1).drop_last() =~= d.take(j));
        assert(d.take(j + 1).last() == d[j]);
        assert(digits_value(d.take(j + 1), radix as nat) == v * radix + dig);
        if dig > max || v > (max - dig) / radix {
            proof {
                if dig <= max {
                    lemma_step_bound(v as int, radix as int, dig as int, max as int);
                } else {
                    assert(v * radix + dig >= dig) by (nonlinear_arith)
                        requires
                            radix >= 2,
                    ;
                }
                assert(v * radix + dig > max);
                if all_digits(d, radix as nat) {
                    lemma_digits_value_prefix(d, radix as nat, j + 1);
                    assert(digits_value(d, radix as nat) > max);
                }
                assert(parse_unsigned(s@, radix as nat, max as nat) is None);
            }
            return None;
        }
        proof {
            lemma_step_bound(v as int, radix as int, dig as int, max as int);
        }
        v = v * radix + dig;
        i = i + 1;
    }
    assert(d.take(n - start) =~= d);
    assert(all_digits(d, radix as nat));
    Some(v)
}


// ---------------------------------------------------------------------
// Searching for a character
// ---------------------------------------------------------------------

/// `i` is the position of the first `c` in `s`.
pub open spec fn is_first_index(s: Seq<char>, c: char, i: int) -> bool {
    &&& 0 <= i < s.len()
    &&& s[i] == c
    &&& forall|j: int| 0 <= j < i ==> s[j] != c
}

/// `i` is the position of the last `c` in `s`.
pub open spec fn is_last_index(s: Seq<char>, c: char, i: int) -> bool {
    &&& 0 <= i < s.len()
    &&& s[i] == c
    &&& forall|j: int| i < j < s.len() ==> s[j] != c
}

/// The position of the first `c` in `s`, or -1 where there is none.
pub open spec fn first_index(s: Seq<char>, c: char) -> int {
    if exists|i: int| is_first_index(s, c, i) {
        choose|i: int| is_first_index(s, c, i)
    } else {
        -1
    }
}

/// The position of the last `c` in `s`, or -1 where there is none.
pub open spec fn last_index(s: Seq<char>, c: char) -> int {
    if exists|i: int| is_last_index(s, c, i) {
        choose|i: int| is_last_index(s, c, i)
    } else {
        -1
    }
}

pub proof fn lemma_first_index_at(s: Seq<char>, c: char, i: int)
    requires
        is_first_index(s, c, i),
    ensures
        first_index(s, c) == i,
{
    let k = choose|k: int| is_first_index(s, c, k);
    assert(is_first_index(s, c, k));
    if k < i {
        assert(s[k] != c);
    }
    if i < k {
        assert(s[i] != c);
    }
}

pub proof fn lemma_first_index_none(s: Seq<char>, c: char)
    requires
        forall|j: int| 0 <= j < s.len() ==> s[j] != c,
    ensures
        first_index(s, c) == -1,
{
}

pub proof fn lemma_last_index_at(s: Seq<char>, c: char, i: int)
    requires
        is_last_index(s, c, i),
    ensures
        last_index(s, c) == i,
{
    let k = choose|k: int| is_last_index(s, c, k);
    assert(is_last_index(s, c, k));
    if k < i {
        assert(s[i] != c);
    }
    if i < k {
        assert(s[k] != c);
    }
}

pub proof fn lemma_last_index_none(s: Seq<char>, c: char)
    requires
        forall|j: int| 0 <= j < s.len() ==> s[j] != c,
    ensures
        last_index(s, c) == -1,
{
}

/// What follows the last `c` in `s`, or all of `s` where there is no `c`
/// (the first item of `s.rsplit(c)`).
pub open spec fn after_last(s: Seq<char>, c: char) -> Seq<char> {
    let i = last_index(s, c);
    if i >= 0 {
        s.skip(i + 1)
    } else {
        s
    }
}

/// What precedes the first `c` in `s`, or all of `s` where there is no `c`
/// (the first item of `s.split(c)`).
pub open spec fn before_first(s: Seq<char>, c: char) -> Seq<char> {
    let i = first_index(s, c);
    if i >= 0 {
        s.take(i)
    } else {
        s
    }
}

/// Position of the first `c` in `v`, where there is one.
pub fn find_char(v: &Vec<char>, c: char) -> (r: Option<usize>)
    ensures
        match r {
            Some(i) => first_index(v@, c) == i as int && is_first_index(v@, c, i as int),
            None => first_index(v@, c) == -1 && forall|j: int| 0 <= j < v@.len() ==> v@[j] != c,
        },
{
    let mut i: usize = 0;
    while i < v.len()
        invariant
            i <= v.len(),
            forall|j: int| 0 <= j < i ==> v@[j] != c,
        decreases v.len() - i,
    {
        if v[i] == c {
            proof {
                lemma_first_index_at(v@, c, i as int);
            }
            return Some(i);
        }
        i = i + 1;
    }
    proof {
        lemma_first_index_none(v@, c);
    }
    None
}

/// Position of the last `c` in `v`, where there is one.
pub fn rfind_char(v: &Vec<char>, c: char) -> (r: Option<usize>)
    ensures
        match r {
            Some(i) => last_index(v@, c) == i as int && is_last_index(v@, c, i as int),
            None => last_index(v@, c) == -1 && forall|j: int| 0 <= j < v@.len() ==> v@[j] != c,
        },
{
    let mut i: usize = v.len();
    while i > 0
        invariant
            i <= v.len(),
            forall|j: int| i <= j < v@.len() ==> v@[j] != c,
        decreases i,
    {
        if v[i - 1] == c {
            proof {
                lemma_last_index_at(v@, c, i - 1);
            }
            return Some(i - 1);
        }
        i = i - 1;
    }
    proof {
        lemma_last_index_none(v@, c);
    }
    None
}

/// The characters `v[from..to]`.
pub fn slice_chars(v: &Vec<char>, from: usize, to: usize) -> (r: Vec<char>)
    requires
        from <= to <= v.len(),
    ensures
        r@ == v@.subrange(from as int, to as int),
{
    let mut r: Vec<char> = Vec::new();
    let mut i: usize = from;
    while i < to
        invariant
            from <= i <= to,
            to <= v.len(),
            r@ == v@.subrange(from as int, i as int),
        decreases to - i,
    {
        r.push(v[i]);
        i = i + 1;
        assert(r@ =~= v@.subrange(from as int, i as int));
    }
    r
}

/// The first item of `v.rsplit(c)`: what follows the last `c`.
pub fn after_last_char(v: &Vec<char>, c: char) -> (r: Vec<char>)
    ensures
        r@ == after_last(v@, c),
{
    match rfind_char(v, c) {
        Some(i) => {
            assert(i < v.len());
            let r = slice_chars(v, i + 1, v.len());
            assert(r@ =~= v@.skip(i + 1));
            r
        },
        None => slice_chars(v, 0, v.len()),
    }
}

/// The first item of `v.split(c)`: what precedes the first `c`.
pub fn before_first_char(v: &Vec<char>, c: char) -> (r: Vec<char>)
    ensures
        r@ == before_first(v@, c),
{
    match find_char(v, c) {
        Some(i) => {
            let r = slice_chars(v, 0, i);
            assert(r@ =~= v@.take(i as int));
            r
        },
        None => {
            let r = slice_chars(v, 0, v.len());
            assert(r@ =~= v@);
            r
        },
    }
}

/// `s` begins with `p`.
pub open spec fn has_prefix(s: Seq<char>, p: Seq<char>) -> bool {
    p.len() <= s.len() && s.take(p.len() as int) == p
}

/// Whether `v` begins with the characters of `p`.
pub fn starts_with_chars(v: &Vec<char>, p: &Vec<char>) -> (r: bool)
    ensures
        r == has_prefix(v@, p@),
{
    if p.len() > v.len() {
        return false;
    }
    let mut i: usize = 0;
    while i < p.len()
        invariant
            p.len() <= v.len(),
            i <= p.len(),
            forall|j: int| 0 <= j < i ==> v@[j] == p@[j],
        decreases p.len() - i,
    {
        if v[i] != p[i] {
            assert(v@.take(p.len() as int)[i as int] != p@[i as int]);
            return false;
        }
        i = i + 1;
    }
    assert(v@.take(p.len() as int) =~= p@);
    true
}


// ---------------------------------------------------------------------
// Whitespace, trimming and splitting
// ---------------------------------------------------------------------

/// Unicode's White_Space property, which `char::is_whitespace` tests.
pub open spec fn is_whitespace(c: char) -> bool {
    let x = c as u32;
    ||| 9 <= x <= 13
    ||| x == 32
    ||| x == 0x85
    ||| x == 0xA0
    ||| x == 0x1680
    ||| 0x2000 <= x <= 0x200A
    ||| x == 0x2028
    ||| x == 0x2029
    ||| x == 0x202F
    ||| x == 0x205F
    ||| x == 0x3000
}

/// Whether `c` is whitespace.
pub fn char_is_whitespace(c: char) -> (r: bool)
    ensures
        r == is_whitespace(c),
{
    let x: u32 = c as u32;
    (9 <= x && x <= 13) || x == 32 || x == 0x85 || x == 0xA0 || x == 0x1680 || (0x2000 <= x
        && x <= 0x200A) || x == 0x2028 || x == 0x2029 || x == 0x202F || x == 0x205F || x
        == 0x3000
}

/// `s` without its leading whitespace.
pub open spec fn trim_start(s: Seq<char>) -> Seq<char>
    decreases s.len(),
{
    if s.len() > 0 && is_whitespace(s[0]) {
        trim_start(s.drop_first())
    } else {
        s
    }
}

/// `s` without its trailing whitespace.
pub open spec fn trim_end(s: Seq<char>) -> Seq<char>
    decreases s.len(),
{
    if s.len() > 0 && is_whitespace(s.last()) {
        trim_end(s.drop_last())
    } else {
        s
    }
}

/// `s` without leading and trailing whitespace (`str::trim`).
pub open spec fn trim(s: Seq<char>) -> Seq<char> {
    trim_end(trim_start(s))
}

/// `v` without leading and trailing whitespace.
pub fn trim_chars(v: &Vec<char>) -> (r: Vec<char>)
    ensures
        r@ == trim(v@),
{
    let n: usize = v.len();
    let mut i: usize = 0;
    assert(v@.skip(0) =~= v@);
    while i < n && char_is_whitespace(v[i])
        invariant
            n == v.len(),
            i <= n,
            trim_start(v@) == trim_start(v@.skip(i as int)),
        decreases n - i,
    {
        assert(v@.skip(i as int).drop_first() =~= v@.skip(i + 1));
        i = i + 1;
    }
    assert(trim_start(v@) == v@.skip(i as int));
    let mut j: usize = n;
    assert(v@.skip(i as int) =~= v@.subrange(i as int, j as int));
    while j > i && char_is_whitespace(v[j - 1])
        invariant
            n == v.len(),
            i <= j <= n,
            trim(v@) == trim_end(v@.subrange(i as int, j as int)),
        decreases j,
    {
        assert(v@.subrange(i as int, j as int).drop_last() =~= v@.subrange(i as int, j - 1));
        j = j - 1;
    }
    slice_chars(v, i, j)
}

/// The length of the run of non-whitespace characters at the start of `s`.
pub open spec fn word_len(s: Seq<char>) -> nat
    decreases s.len(),
{
    if s.len() > 0 && !is_whitespace(s[0]) {
        1 + word_len(s.drop_first())
    } else {
        0
    }
}

/// The whitespace-separated words of `s` (`str::split_whitespace`).
pub open spec fn words(s: Seq<char>) -> Seq<Seq<char>>
    decreases s.len(),
{
    if s.len() == 0 {
        seq![]
    } else if is_whitespace(s[0]) {
        words(s.drop_first())
    } else {
        let k = word_len(s);
        if 0 < k <= s.len() {
            seq![s.take(k as int)] + words(s.skip(k as int))
        } else {
            seq![]
        }
    }
}

proof fn lemma_word_len_exact(s: Seq<char>, k: int)
    requires
        0 <= k <= s.len(),
        forall|t: int| 0 <= t < k ==> !is_whitespace(s[t]),
        k == s.len() || is_whitespace(s[k]),
    ensures
        word_len(s) == k,
    decreases k,
{
    if k > 0 {
        let d = s.drop_first();
        assert forall|t: int| 0 <= t < k - 1 implies !is_whitespace(d[t]) by {
            assert(d[t] == s[t + 1]);
        }
        if k < s.len() {
            assert(d[k - 1] == s[k]);
        }
        lemma_word_len_exact(d, k - 1);
    }
}

/// The whitespace-separated words of `v`.
pub fn split_whitespace_chars(v: &Vec<char>) -> (r: Vec<Vec<char>>)
    ensures
        r@.len() == words(v@).len(),
        forall|k: int| 0 <= k < r@.len() ==> (#[trigger] r@[k])@ == words(v@)[k],
{
    let n: usize = v.len();
    let mut r: Vec<Vec<char>> = Vec::new();
    let mut i: usize = 0;
    let ghost done: Seq<Seq<char>> = seq![];
    assert(v@.skip(0) =~= v@);
    while i < n
        invariant
            n == v.len(),
            i <= n,
            r@.len() == done.len(),
            forall|k: int| 0 <= k < r@.len() ==> (#[trigger] r@[k])@ == done[k],
            words(v@) == done + words(v@.skip(i as int)),
        decreases n - i,
    {
        if char_is_whitespace(v[i]) {
            assert(v@.skip(i as int).drop_first() =~= v@.skip(i + 1));
            i = i + 1;
        } else {
            let mut j: usize = i;
            while j < n && !char_is_whitespace(v[j])
                invariant
                    n == v.len(),
                    i <= j <= n,
                    forall|t: int| i <= t < j ==> !is_whitespace(v@[t]),
                decreases n - j,
            {
                j = j + 1;
            }
            let w = slice_chars(v, i, j);
            proof {
                let t = v@.skip(i as int);
                assert forall|q: int| 0 <= q < j - i implies !is_whitespace(t[q]) by {
                    assert(t[q] == v@[i + q]);
                }
                if j < n {
                    assert(t[j - i] == v@[j as int]);
                }
                lemma_word_len_exact(t, j - i);
                assert(t.take(j - i) =~= w@);
                assert(t.skip(j - i) =~= v@.skip(j as int));
                assert(words(t) == seq![w@] + words(v@.skip(j as int)));
                done = done.push(w@);
                assert(words(v@) =~= done + words(v@.skip(j as int)));
            }
            r.push(w);
            i = j;
        }
    }
    assert(v@.skip(n as int) =~= Seq::<char>::empty());
    assert(words(v@) =~= done);
    r
}

/// The pieces of `s` between the occurrences of `c` (`str::split` on a
/// character): one more piece than there are separators.
pub open spec fn split_char(s: Seq<char>, c: char) -> Seq<Seq<char>>
    decreases s.len(),
{
    let i = first_index(s, c);
    if 0 <= i < s.len() {
        seq![s.take(i)] + split_char(s.skip(i + 1), c)
    } else {
        seq![s]
    }
}

/// The pieces of `v` between the occurrences of `c`.
pub fn split_char_chars(v: &Vec<char>, c: char) -> (r: Vec<Vec<char>>)
    ensures
        r@.len() == split_char(v@, c).len(),
        forall|k: int| 0 <= k < r@.len() ==> (#[trigger] r@[k])@ == split_char(v@, c)[k],
{
    let n: usize = v.len();
    let mut r: Vec<Vec<char>> = Vec::new();
    let mut start: usize = 0;
    let mut j: usize = 0;
    let ghost done: Seq<Seq<char>> = seq![];
    assert(v@.skip(0) =~= v@);
    while j < n
        invariant
            n == v.len(),
            start <= j <= n,
            r@.len() == done.len(),
            forall|k: int| 0 <= k < r@.len() ==> (#[trigger] r@[k])@ == done[k],
            split_char(v@, c) == done + split_char(v@.skip(start as int), c),
            forall|t: int| start <= t < j ==> v@[t] != c,
        decreases n - j,
    {
        if v[j] == c {
            let piece = slice_chars(v, start, j);
            proof {
                let t = v@.skip(start as int);
                assert(is_first_index(t, c, j - start));
                lemma_first_index_at(t, c, j - start);
                assert(t.take(j - start) =~= piece@);
                assert(t.skip(j - start + 1) =~= v@.skip(j + 1));
                done = done.push(piece@);
                assert(split_char(v@, c) =~= done + split_char(v@.skip(j + 1), c));
            }
            r.push(piece);
            start = j + 1;
        }
        j = j + 1;
    }
    let last = slice_chars(v, start, n);
    proof {
        let t = v@.skip(start as int);
        assert forall|q: int| 0 <= q < t.len() implies t[q] != c by {
            assert(t[q] == v@[start + q]);
        }
        lemma_first_index_none(t, c);
        assert(t =~= last@);
        done = done.push(last@);
        assert(split_char(v@, c) =~= done);
    }
    r.push(last);
    r
}

/// `p` without one trailing carriage return.
pub open spec fn strip_cr(p: Seq<char>) -> Seq<char> {
    if p.len() > 0 && p.last() == '\r' {
        p.drop_last()
    } else {
        p
    }
}

/// The lines of `s` (`str::lines`): pieces between newlines; a piece that a
/// newline ends loses one trailing carriage return; an empty piece after
/// the last newline is no line.
pub open spec fn lines(s: Seq<char>) -> Seq<Seq<char>> {
    let pieces = split_char(s, '\n');
    let count: int = if pieces.len() > 0 && pieces.last().len() == 0 {
        pieces.len() - 1
    } else {
        pieces.len() as int
    };
    Seq::new(
        count as nat,
        |k: int|
            if k < pieces.len() - 1 {
                strip_cr(pieces[k])
            } else {
                pieces[k]
            },
    )
}

/// The lines of `v`.
pub fn lines_chars(v: &Vec<char>) -> (r: Vec<Vec<char>>)
    ensures
        r@.len() == lines(v@).len(),
        forall|k: int| 0 <= k < r@.len() ==> (#[trigger] r@[k])@ == lines(v@)[k],
{
    let pieces = split_char_chars(v, '\n');
    let ghost ps = split_char(v@, '\n');
    let np: usize = pieces.len();
    let count: usize = if np > 0 && pieces[np - 1].len() == 0 {
        np - 1
    } else {
        np
    };
    let mut r: Vec<Vec<char>> = Vec::new();
    let mut k: usize = 0;
    while k < count
        invariant
            np == pieces@.len(),
            np == ps.len(),
            ps == split_char(v@, '\n'),
            forall|q: int| 0 <= q < np ==> (#[trigger] pieces@[q])@ == ps[q],
            count <= np,
            count as int == lines(v@).len(),
            k <= count,
            r@.len() == k,
            forall|q: int| 0 <= q < k ==> (#[trigger] r@[q])@ == lines(v@)[q],
        decreases count - k,
    {
        let p = &pieces[k];
        assert(p@ == ps[k as int]);
        let mut line = slice_chars(p, 0, p.len());
        assert(line@ =~= p@);
        if k + 1 < np && line.len() > 0 && line[line.len() - 1] == '\r' {
            line.pop();
            assert(line@ =~= strip_cr(p@));
        }
        assert(line@ == lines(v@)[k as int]);
        r.push(line);
        k = k + 1;
    }
    r
}

/// The first position at which `pat` occurs in `s`, or -1.
pub open spec fn first_occurrence(s: Seq<char>, pat: Seq<char>) -> int {
    if exists|i: int| occurs_at(s, pat, i) && forall|j: int| 0 <= j < i ==> !occurs_at(s, pat, j) {
        choose|i: int| occurs_at(s, pat, i) && forall|j: int| 0 <= j < i ==> !occurs_at(s, pat, j)
    } else {
        -1
    }
}

/// What precedes the first occurrence of `pat` in `s`, or all of `s` (the
/// first item of `s.split(pat)`).
pub open spec fn before_pattern(s: Seq<char>, pat: Seq<char>) -> Seq<char> {
    let i = first_occurrence(s, pat);
    if i >= 0 {
        s.take(i)
    } else {
        s
    }
}

/// The first item of `v.split(pat)` for a non-empty pattern.
pub fn before_pattern_chars(v: &Vec<char>, pat: &Vec<char>) -> (r: Vec<char>)
    requires
        pat.len() > 0,
    ensures
        r@ == before_pattern(v@, pat@),
{
    let n: usize = v.len();
    let m: usize = pat.len();
    let mut i: usize = 0;
    while m <= n - i
        invariant
            n == v.len(),
            m == pat.len(),
            m > 0,
            i <= n,
            forall|j: int| 0 <= j < i ==> !occurs_at(v@, pat@, j),
        decreases n - i,
    {
        let mut k: usize = 0;
        let mut same: bool = true;
        while k < m
            invariant
                n == v.len(),
                m == pat.len(),
                i + m <= n,
                k <= m,
                same ==> forall|t: int| 0 <= t < k ==> v@[i + t] == pat@[t],
                !same ==> !occurs_at(v@, pat@, i as int),
            decreases m - k,
        {
            if same && v[i + k] != pat[k] {
                same = false;
                assert(v@.subrange(i as int, i + m)[k as int] != pat@[k as int]);
            }
            k = k + 1;
        }
        if same {
            assert(v@.subrange(i as int, i + m) =~= pat@);
            proof {
                let w = choose|w: int|
                    occurs_at(v@, pat@, w) && forall|j: int| 0 <= j < w ==> !occurs_at(v@, pat@, j);
                assert(occurs_at(v@, pat@, i as int) && forall|j: int|
                    0 <= j < i ==> !occurs_at(v@, pat@, j));
                if w < i {
                    assert(!occurs_at(v@, pat@, w));
                }
                if i < w {
                    assert(!occurs_at(v@, pat@, i as int));
                }
            }
            let r = slice_chars(v, 0, i);
            assert(r@ =~= v@.take(i as int));
            return r;
        }
        i = i + 1;
    }
    assert forall|w: int| !(occurs_at(v@, pat@, w) && forall|j: int| 0 <= j < w ==> !occurs_at(v@, pat@, j)) by {
        if occurs_at(v@, pat@, w) {
            assert(w < i);
        }
    }
    let r = slice_chars(v, 0, n);
    assert(r@ =~= v@);
    r
}

} // verus!
