//! Character-sequence helpers: splitting on a separator, trimming white
//! space, and whole numbers written in decimal.
use vstd::prelude::*;

verus! {

// ---------------------------------------------------------------------
// Strings and character vectors
// ---------------------------------------------------------------------

/// Appends one character to a string (`String::push`).
#[verifier::external_body]
fn push_char(s: &mut String, c: char)
    ensures
        final(s)@ == old(s)@.push(c),
{
    s.push(c);
}

/// The characters of a string, in order.
pub fn chars_of(s: &str) -> (v: Vec<char>)
    ensures
        v@ == s@,
{
    let mut v: Vec<char> = Vec::new();
    for c in it: s.chars()
        invariant
            v@ == it.seq().take(it.index() as int),
    {
        v.push(c);
    }
    v
}

/// The string made of the given characters.
pub fn string_of(v: &[char]) -> (s: String)
    ensures
        s@ == v@,
{
    let mut s = String::new();
    let mut i: usize = 0;
    while i < v.len()
        invariant
            i <= v.len(),
            s@ == v@.take(i as int),
        decreases v.len() - i,
    {
        push_char(&mut s, v[i]);
        i = i + 1;
        assert(s@ == v@.take(i as int));
    }
    assert(v@.take(v.len() as int) == v@);
    s
}

/// The characters of `v` from position `a` up to (not including) `b`.
pub fn subrange_of(v: &Vec<char>, a: usize, b: usize) -> (r: Vec<char>)
    requires
        a <= b <= v.len(),
    ensures
        r@ == v@.subrange(a as int, b as int),
{
    let mut r: Vec<char> = Vec::new();
    let mut i: usize = a;
    while i < b
        invariant
            a <= i <= b <= v.len(),
            r@ == v@.subrange(a as int, i as int),
        decreases b - i,
    {
        r.push(v[i]);
        i = i + 1;
        assert(r@ == v@.subrange(a as int, i as int));
    }
    r
}

/// Appends all characters of `w` to `v`.
pub fn append_chars(v: &mut Vec<char>, w: &Vec<char>)
    ensures
        final(v)@ == old(v)@ + w@,
{
    let ghost v0 = v@;
    let mut i: usize = 0;
    while i < w.len()
        invariant
            i <= w.len(),
            v@ == v0 + w@.take(i as int),
        decreases w.len() - i,
    {
        v.push(w[i]);
        i = i + 1;
        assert(v@ == v0 + w@.take(i as int));
    }
    assert(w@.take(w.len() as int) == w@);
}

/// Whether two character vectors hold the same characters.
pub fn same_chars(v: &Vec<char>, w: &Vec<char>) -> (b: bool)
    ensures
        b == (v@ == w@),
{
    if v.len() != w.len() {
        return false;
    }
    let mut i: usize = 0;
    while i < v.len()
        invariant
            v.len() == w.len(),
            i <= v.len(),
            forall|j: int| 0 <= j < i ==> v@[j] == w@[j],
        decreases v.len() - i,
    {
        if v[i] != w[i] {
            return false;
        }
        i = i + 1;
    }
    assert(v@ =~= w@);
    true
}

// ---------------------------------------------------------------------
// Splitting on a separator
// ---------------------------------------------------------------------

/// `sep` occurs in `s` starting at position `i`.
pub open spec fn occurs_at(s: Seq<char>, sep: Seq<char>, i: int) -> bool {
    0 <= i && i + sep.len() <= s.len() && s.subrange(i, i + sep.len()) == sep
}

/// The first position at or after `k` where `sep` occurs in `s`.
pub open spec fn find_from(s: Seq<char>, sep: Seq<char>, k: int) -> Option<int>
    decreases s.len() + 1 - k,
{
    if k < 0 || k + sep.len() > s.len() {
        None
    } else if occurs_at(s, sep, k) {
        Some(k)
    } else {
        find_from(s, sep, k + 1)
    }
}

/// What `find_from` returns is the first occurrence at or after `k`.
pub proof fn lemma_find_from(s: Seq<char>, sep: Seq<char>, k: int)
    requires
        k >= 0,
    ensures
        match find_from(s, sep, k) {
            Some(i) => k <= i && occurs_at(s, sep, i) && forall|j: int|
                k <= j < i ==> !occurs_at(s, sep, j),
            None => forall|j: int| k <= j ==> !occurs_at(s, sep, j),
        },
    decreases s.len() + 1 - k,
{
    if k + sep.len() > s.len() {
    } else if occurs_at(s, sep, k) {
    } else {
        lemma_find_from(s, sep, k + 1);
    }
}

/// The views of a sequence of character vectors.
pub open spec fn views(r: Seq<Vec<char>>) -> Seq<Seq<char>> {
    r.map_values(|x: Vec<char>| x@)
}

/// The pieces of `s` from position `start` on, cut at each occurrence of
/// `sep` found from left to right (as `str::split` with a string pattern).
pub open spec fn split_from(s: Seq<char>, sep: Seq<char>, start: int) -> Seq<Seq<char>>
    decreases s.len() - start,
{
    if sep.len() == 0 || start < 0 || start > s.len() {
        seq![]
    } else {
        match find_from(s, sep, start) {
            None => seq![s.subrange(start, s.len() as int)],
            Some(i) => {
                proof {
                    lemma_find_from(s, sep, start);
                }
                seq![s.subrange(start, i)] + split_from(s, sep, i + sep.len())
            },
        }
    }
}

/// The pieces of `s` cut at each occurrence of `sep`.
pub open spec fn split_seq(s: Seq<char>, sep: Seq<char>) -> Seq<Seq<char>> {
    split_from(s, sep, 0)
}

/// Whether `sep` occurs in `v` at position `i`.
fn occurs_at_exec(v: &Vec<char>, sep: &Vec<char>, i: usize) -> (b: bool)
    ensures
        b == occurs_at(v@, sep@, i as int),
{
    if i > v.len() || sep.len() > v.len() - i {
        return false;
    }
    let mut j: usize = 0;
    while j < sep.len()
        invariant
            i + sep.len() <= v.len(),
            j <= sep.len(),
            forall|t: int| 0 <= t < j ==> v@[i + t] == sep@[t],
        decreases sep.len() - j,
    {
        if v[i + j] != sep[j] {
            assert(v@.subrange(i as int, i + sep.len())[j as int] != sep@[j as int]);
            return false;
        }
        j = j + 1;
    }
    assert(v@.subrange(i as int, i + sep.len()) =~= sep@);
    true
}

/// Cuts `v` at each occurrence of the non-empty `sep`, from left to right.
pub fn split_on(v: &Vec<char>, sep: &Vec<char>) -> (r: Vec<Vec<char>>)
    requires
        sep.len() > 0,
    ensures
        views(r@) == split_seq(v@, sep@),
        r.len() >= 1,
{
    let mut r: Vec<Vec<char>> = Vec::new();
    let mut start: usize = 0;
    let mut p: usize = 0;
    while p < v.len() && sep.len() <= v.len() - p
        invariant
            sep.len() > 0,
            start <= p <= v.len(),
            views(r@) + split_from(v@, sep@, start as int) == split_seq(v@, sep@),
            find_from(v@, sep@, start as int) == find_from(v@, sep@, p as int),
        decreases v.len() - p,
    {
        if occurs_at_exec(v, sep, p) {
            let piece = subrange_of(v, start, p);
            proof {
                lemma_find_from(v@, sep@, start as int);
                assert(find_from(v@, sep@, p as int) == Some(p as int));
                assert(split_from(v@, sep@, start as int) == seq![v@.subrange(start as int, p as int)]
                    + split_from(v@, sep@, p + sep.len()));
            }
            let ghost old_r = views(r@);
            r.push(piece);
            assert(views(r@) =~= old_r.push(v@.subrange(start as int, p as int)));
            assert(views(r@) + split_from(v@, sep@, (p + sep.len()) as int) =~= old_r + split_from(v@, sep@, start as int));
            start = p + sep.len();
            p = start;
        } else {
            assert(find_from(v@, sep@, p as int) == find_from(v@, sep@, p + 1));
            p = p + 1;
        }
    }
    assert(find_from(v@, sep@, p as int) == None::<int>);
    let last = subrange_of(v, start, v.len());
    let ghost old_r = views(r@);
    r.push(last);
    proof {
        lemma_find_from(v@, sep@, start as int);
    }
    assert(views(r@) =~= old_r.push(v@.subrange(start as int, v.len() as int)));
    assert(views(r@) =~= old_r + split_from(v@, sep@, start as int));
    r
}

// ---------------------------------------------------------------------
// White space
// ---------------------------------------------------------------------

/// Characters with the Unicode White_Space property (`char::is_whitespace`).
pub open spec fn is_white(c: char) -> bool {
    let u = c as u32;
    (0x9 <= u <= 0xd) || u == 0x20 || u == 0x85 || u == 0xa0 || u == 0x1680 || (0x2000 <= u
        <= 0x200a) || u == 0x2028 || u == 0x2029 || u == 0x202f || u == 0x205f || u == 0x3000
}

/// Whether `c` is white space.
pub fn is_white_exec(c: char) -> (b: bool)
    ensures
        b == is_white(c),
{
    let u = c as u32;
    (0x9 <= u && u <= 0xd) || u == 0x20 || u == 0x85 || u == 0xa0 || u == 0x1680 || (0x2000 <= u
        && u <= 0x200a) || u == 0x2028 || u == 0x2029 || u == 0x202f || u == 0x205f || u == 0x3000
}

/// `s` without its leading white space.
pub open spec fn trim_start(s: Seq<char>) -> Seq<char>
    decreases s.len(),
{
    if s.len() > 0 && is_white(s[0]) {
        trim_start(s.drop_first())
    } else {
        s
    }
}

/// `s` without its trailing white space.
pub open spec fn trim_end(s: Seq<char>) -> Seq<char>
    decreases s.len(),
{
    if s.len() > 0 && is_white(s.last()) {
        trim_end(s.drop_last())
    } else {
        s
    }
}

/// `s` without leading and trailing white space (`str::trim`).
pub open spec fn trim(s: Seq<char>) -> Seq<char> {
    trim_end(trim_start(s))
}

/// `v` without leading and trailing white space.
pub fn trim_chars(v: &Vec<char>) -> (r: Vec<char>)
    ensures
        r@ == trim(v@),
{
    let n = v.len();
    let mut i: usize = 0;
    assert(v@.subrange(0, n as int) =~= v@);
    while i < n && is_white_exec(v[i])
        invariant
            n == v.len(),
            i <= n,
            trim_start(v@) == trim_start(v@.subrange(i as int, n as int)),
        decreases n - i,
    {
        assert(v@.subrange(i as int, n as int).drop_first() =~= v@.subrange(i + 1, n as int));
        i = i + 1;
    }
    let mut j: usize = n;
    while j > i && is_white_exec(v[j - 1])
        invariant
            n == v.len(),
            i <= j <= n,
            trim(v@) == trim_end(v@.subrange(i as int, j as int)),
        decreases j - i,
    {
        assert(v@.subrange(i as int, j as int).drop_last() =~= v@.subrange(i as int, j - 1));
        j = j - 1;
    }
    subrange_of(v, i, j)
}

/// The first position where the non-empty `sep` occurs in `v`.
pub fn find_first(v: &Vec<char>, sep: &Vec<char>) -> (r: Option<usize>)
    requires
        sep.len() > 0,
    ensures
        match r {
            Some(i) => find_from(v@, sep@, 0) == Some(i as int) && i + sep.len() <= v.len(),
            None => find_from(v@, sep@, 0) == None::<int>,
        },
{
    proof {
        lemma_find_from(v@, sep@, 0);
    }
    let mut p: usize = 0;
    while p < v.len() && sep.len() <= v.len() - p
        invariant
            p <= v.len(),
            find_from(v@, sep@, 0) == find_from(v@, sep@, p as int),
        decreases v.len() - p,
    {
        if occurs_at_exec(v, sep, p) {
            return Some(p);
        }
        p = p + 1;
    }
    None
}

// ---------------------------------------------------------------------
// Whole numbers in decimal
// ---------------------------------------------------------------------

/// The decimal digit for `d` (which is below ten).
pub open spec fn digit_char(d: nat) -> char {
    if d == 0 {
        '0'
    } else if d == 1 {
        '1'
    } else if d == 2 {
        '2'
    } else if d == 3 {
        '3'
    } else if d == 4 {
        '4'
    } else if d == 5 {
        '5'
    } else if d == 6 {
        '6'
    } else if d == 7 {
        '7'
    } else if d == 8 {
        '8'
    } else {
        '9'
    }
}

/// `n` written in decimal, without leading zeros (as `format!("{}", n)`).
pub open spec fn decimal(n: nat) -> Seq<char>
    decreases n,
{
    if n < 10 {
        seq![digit_char(n)]
    } else {
        decimal(n / 10).push(digit_char(n % 10))
    }
}

/// A signed whole number written in decimal, with `-` before a negative one.
pub open spec fn int_decimal(i: int) -> Seq<char> {
    if i < 0 {
        seq!['-'] + decimal((-i) as nat)
    } else {
        decimal(i as nat)
    }
}

fn digit_char_exec(d: u64) -> (c: char)
    requires
        d < 10,
    ensures
        c == digit_char(d as nat),
{
    if d == 0 {
        '0'
    } else if d == 1 {
        '1'
    } else if d == 2 {
        '2'
    } else if d == 3 {
        '3'
    } else if d == 4 {
        '4'
    } else if d == 5 {
        '5'
    } else if d == 6 {
        '6'
    } else if d == 7 {
        '7'
    } else if d == 8 {
        '8'
    } else {
        '9'
    }
}

/// `n` written in decimal.
pub fn decimal_u64(n: u64) -> (r: Vec<char>)
    ensures
        r@ == decimal(n as nat),
    decreases n,
{
    if n < 10 {
        let mut r: Vec<char> = Vec::new();
        r.push(digit_char_exec(n));
        r
    } else {
        let mut r = decimal_u64(n / 10);
        r.push(digit_char_exec(n % 10));
        r
    }
}

/// `i` written in decimal, with `-` before a negative number.
pub fn decimal_i64(i: i64) -> (r: Vec<char>)
    ensures
        r@ == int_decimal(i as int),
{
    if i < 0 {
        let m: i128 = -(i as i128);
        let mut r: Vec<char> = Vec::new();
        r.push('-');
        let d = decimal_u64(m as u64);
        append_chars(&mut r, &d);
        assert(r@ =~= seq!['-'] + decimal((-i) as nat));
        r
    } else {
        decimal_u64(i as u64)
    }
}

/// `c` is an ASCII decimal digit.
pub open spec fn is_digit(c: char) -> bool {
    48 <= (c as u32) <= 57
}

/// The value of the decimal digit `c`.
pub open spec fn digit_value(c: char) -> int {
    (c as u32) - 48
}

/// The value of a sequence of decimal digits, most significant first.
pub open spec fn digits_value(s: Seq<char>) -> int
    decreases s.len(),
{
    if s.len() == 0 {
        0
    } else {
        digits_value(s.drop_last()) * 10 + digit_value(s.last())
    }
}

/// Every character of `s` is a decimal digit.
pub open spec fn all_digits(s: Seq<char>) -> bool {
    forall|i: int| 0 <= i < s.len() ==> is_digit(#[trigger] s[i])
}

/// The whole number that `s` writes: an optional `+` or `-`, then at least
/// one decimal digit and nothing else; `None` for any other text.
pub open spec fn parse_int(s: Seq<char>) -> Option<int> {
    if s.len() == 0 {
        None
    } else {
        let signed = s[0] == '-' || s[0] == '+';
        let ds = if signed {
            s.drop_first()
        } else {
            s
        };
        if ds.len() == 0 || !all_digits(ds) {
            None
        } else if s[0] == '-' {
            Some(-digits_value(ds))
        } else {
            Some(digits_value(ds))
        }
    }
}

/// What `str::parse::<i64>` gives: the number `s` writes, where it fits.
pub open spec fn parse_i64(s: Seq<char>) -> Option<i64> {
    match parse_int(s) {
        Some(v) => if i64::MIN <= v <= i64::MAX {
            Some(v as i64)
        } else {
            None
        },
        None => None,
    }
}

/// What `str::parse::<i32>` gives: the number `s` writes, where it fits.
pub open spec fn parse_i32(s: Seq<char>) -> Option<i32> {
    match parse_int(s) {
        Some(v) => if i32::MIN <= v <= i32::MAX {
            Some(v as i32)
        } else {
            None
        },
        None => None,
    }
}

proof fn lemma_digits_value_nonneg(s: Seq<char>)
    requires
        all_digits(s),
    ensures
        digits_value(s) >= 0,
    decreases s.len(),
{
    if s.len() > 0 {
        assert(all_digits(s.drop_last()));
        lemma_digits_value_nonneg(s.drop_last());
        assert(is_digit(s[s.len() - 1]));
    }
}

proof fn lemma_digits_prefix_le(s: Seq<char>, k: int)
    requires
        all_digits(s),
        0 <= k <= s.len(),
    ensures
        digits_value(s.take(k)) <= digits_value(s),
    decreases s.len() - k,
{
    if k < s.len() {
        lemma_digits_prefix_le(s, k + 1);
        assert(s.take(k + 1).drop_last() =~= s.take(k));
        assert(all_digits(s.take(k)));
        lemma_digits_value_nonneg(s.take(k));
        assert(is_digit(s[k]));
    } else {
        assert(s.take(k) =~= s);
    }
}

/// The number that `v` writes, as `str::parse::<i64>` reads it.
pub fn parse_i64_chars(v: &Vec<char>) -> (r: Option<i64>)
    ensures
        r == parse_i64(v@),
{
    if v.len() == 0 {
        return None;
    }
    let signed = v[0] == '-' || v[0] == '+';
    let neg = v[0] == '-';
    let off: usize = if signed {
        1
    } else {
        0
    };
    let ghost ds = if signed {
        v@.drop_first()
    } else {
        v@
    };
    assert(ds =~= v@.subrange(off as int, v.len() as int));
    if v.len() == off {
        return None;
    }
    let mut acc: i128 = 0;
    let mut i: usize = off;
    while i < v.len()
        invariant
            off <= i <= v.len(),
            v.len() > 0,
            signed == (v@[0] == '-' || v@[0] == '+'),
            neg == (v@[0] == '-'),
            off == (if signed { 1usize } else { 0usize }),
            ds == (if signed { v@.drop_first() } else { v@ }),
            ds.len() > 0,
            ds == v@.subrange(off as int, v.len() as int),
            all_digits(v@.subrange(off as int, i as int)),
            acc == digits_value(v@.subrange(off as int, i as int)),
            0 <= acc <= 9223372036854775808,
        decreases v.len() - i,
    {
        let c = v[i];
        let u = c as u32;
        if !(48 <= u && u <= 57) {
            assert(ds[i - off] == c);
            assert(!is_digit(ds[i - off]));
            assert(!all_digits(ds));
            return None;
        }
        let d: i128 = (u - 48) as i128;
        assert(v@.subrange(off as int, i + 1).drop_last() =~= v@.subrange(off as int, i as int));
        acc = acc * 10 + d;
        i = i + 1;
        assert(all_digits(v@.subrange(off as int, i as int))) by {
            assert forall|j: int| 0 <= j < i - off implies is_digit(
                #[trigger] v@.subrange(off as int, i as int)[j],
            ) by {
                if j < i - 1 - off {
                    assert(v@.subrange(off as int, i as int)[j] == v@.subrange(off as int, i - 1)[j]);
                }
            }
        }
        if acc > 9223372036854775808 {
            proof {
                assert(ds.take(i - off) =~= v@.subrange(off as int, i as int));
                if all_digits(ds) {
                    lemma_digits_prefix_le(ds, i - off);
                }
            }
            return None;
        }
    }
    assert(v@.subrange(off as int, v.len() as int) =~= ds);
    if neg {
        let r: i128 = -acc;
        Some(r as i64)
    } else if acc <= 9223372036854775807 {
        Some(acc as i64)
    } else {
        None
    }
}

/// The number that `v` writes, as `str::parse::<i32>` reads it.
pub fn parse_i32_chars(v: &Vec<char>) -> (r: Option<i32>)
    ensures
        r == parse_i32(v@),
{
    match parse_i64_chars(v) {
        Some(x) => if -2147483648 <= x && x <= 2147483647 {
            Some(x as i32)
        } else {
            None
        },
        None => None,
    }
}

proof fn lemma_digit_char(d: nat)
    requires
        d < 10,
    ensures
        is_digit(digit_char(d)),
        digit_value(digit_char(d)) == d,
{
}

pub proof fn lemma_decimal_digits(n: nat)
    ensures
        decimal(n).len() >= 1,
        all_digits(decimal(n)),
        digits_value(decimal(n)) == n,
    decreases n,
{
    if n < 10 {
        lemma_digit_char(n);
        assert(decimal(n).drop_last() =~= Seq::<char>::empty());
        assert(digits_value(Seq::<char>::empty()) == 0);
        assert(digits_value(decimal(n)) == digits_value(decimal(n).drop_last()) * 10 + digit_value(decimal(n).last()));
    } else {
        lemma_decimal_digits(n / 10);
        lemma_digit_char(n % 10);
        let s = decimal(n);
        assert(s.drop_last() =~= decimal(n / 10));
        assert(s.last() == digit_char(n % 10));
        assert(n == (n / 10) * 10 + n % 10);
        assert(digits_value(s) == digits_value(s.drop_last()) * 10 + digit_value(s.last()));
        assert forall|i: int| 0 <= i < s.len() implies is_digit(#[trigger] s[i]) by {
            if i < s.len() - 1 {
                assert(s[i] == decimal(n / 10)[i]);
            }
        }
    }
}

/// Reading back a number written in decimal gives the number: what the
/// window writes into its range fields is what the list reads from them.
pub proof fn lemma_parse_decimal(n: nat)
    requires
        n <= i64::MAX,
    ensures
        parse_i64(decimal(n)) == Some(n as i64),
        parse_int(decimal(n)) == Some(n as int),
{
    lemma_decimal_digits(n);
    let s = decimal(n);
    assert(is_digit(s[0]));
    assert(s[0] != '-' && s[0] != '+');
}

// ---------------------------------------------------------------------
// Splitting text that is put together from pieces
// ---------------------------------------------------------------------

/// `sep` occurs nowhere in `s`.
pub open spec fn free_of(s: Seq<char>, sep: Seq<char>) -> bool {
    forall|k: int| !occurs_at(s, sep, k)
}

proof fn lemma_occurs_shift(a: Seq<char>, b: Seq<char>, sep: Seq<char>, k: int)
    requires
        k >= 0,
    ensures
        occurs_at(a + b, sep, a.len() + k) == occurs_at(b, sep, k),
{
    if k + sep.len() <= b.len() {
        assert((a + b).subrange(a.len() + k, a.len() + k + sep.len()) =~= b.subrange(
            k,
            k + sep.len(),
        ));
    }
}

proof fn lemma_find_shift(a: Seq<char>, b: Seq<char>, sep: Seq<char>, k: int)
    requires
        k >= 0,
    ensures
        find_from(a + b, sep, a.len() + k) == match find_from(b, sep, k) {
            Some(i) => Some(a.len() + i),
            None => None::<int>,
        },
    decreases b.len() + 1 - k,
{
    lemma_occurs_shift(a, b, sep, k);
    if k + sep.len() <= b.len() && !occurs_at(b, sep, k) {
        lemma_find_shift(a, b, sep, k + 1);
        assert(a.len() + k + 1 == a.len() + (k + 1));
    }
}

/// Splitting the part of `a + b` after `a` is splitting `b`.
pub proof fn lemma_split_shift(a: Seq<char>, b: Seq<char>, sep: Seq<char>, k: int)
    requires
        0 <= k <= b.len(),
        sep.len() > 0,
    ensures
        split_from(a + b, sep, a.len() + k) == split_from(b, sep, k),
    decreases b.len() - k,
{
    lemma_find_shift(a, b, sep, k);
    lemma_find_from(b, sep, k);
    match find_from(b, sep, k) {
        Some(i) => {
            assert((a + b).subrange(a.len() + k, a.len() + i) =~= b.subrange(k, i));
            lemma_split_shift(a, b, sep, i + sep.len());
            assert(a.len() + i + sep.len() == a.len() + (i + sep.len()));
        },
        None => {
            assert((a + b).subrange(a.len() + k, (a + b).len() as int) =~= b.subrange(
                k,
                b.len() as int,
            ));
        },
    }
}

/// Text without the separator is one piece.
pub proof fn lemma_split_whole(s: Seq<char>, sep: Seq<char>)
    requires
        sep.len() > 0,
        free_of(s, sep),
    ensures
        split_seq(s, sep) == seq![s],
{
    lemma_find_from(s, sep, 0);
    assert(s.subrange(0, s.len() as int) =~= s);
}

/// Text made of `a`, the separator and `b`, where `a` does not hold the
/// separator, is `a` followed by the pieces of `b`.
pub proof fn lemma_split_join(a: Seq<char>, sep: Seq<char>, b: Seq<char>)
    requires
        sep.len() > 0,
        forall|k: int| k < a.len() ==> !occurs_at(a + sep + b, sep, k),
    ensures
        split_seq(a + sep + b, sep) == seq![a] + split_seq(b, sep),
{
    let s = a + sep + b;
    assert(s.subrange(a.len() as int, (a.len() + sep.len()) as int) =~= sep);
    assert(occurs_at(s, sep, a.len() as int));
    lemma_find_from(s, sep, 0);
    assert(find_from(s, sep, 0) == Some(a.len() as int));
    assert(s.subrange(0, a.len() as int) =~= a);
    assert(s =~= (a + sep) + b);
    lemma_split_shift(a + sep, b, sep, 0);
}

/// The pieces joined, with `sep` between each two.
pub open spec fn join_seq(pieces: Seq<Seq<char>>, sep: Seq<char>) -> Seq<char>
    decreases pieces.len(),
{
    if pieces.len() == 0 {
        Seq::empty()
    } else if pieces.len() == 1 {
        pieces[0]
    } else {
        pieces[0] + sep + join_seq(pieces.drop_first(), sep)
    }
}

proof fn lemma_split_from_nonempty(s: Seq<char>, sep: Seq<char>, start: int)
    requires
        sep.len() > 0,
        0 <= start <= s.len(),
    ensures
        split_from(s, sep, start).len() >= 1,
{
    lemma_find_from(s, sep, start);
}

/// Joining the pieces of a split with the separator gives the text back.
pub proof fn lemma_join_split_from(s: Seq<char>, sep: Seq<char>, start: int)
    requires
        sep.len() > 0,
        0 <= start <= s.len(),
    ensures
        join_seq(split_from(s, sep, start), sep) == s.subrange(start, s.len() as int),
    decreases s.len() - start,
{
    lemma_find_from(s, sep, start);
    match find_from(s, sep, start) {
        Some(i) => {
            let rest = split_from(s, sep, i + sep.len());
            lemma_join_split_from(s, sep, i + sep.len());
            lemma_split_from_nonempty(s, sep, i + sep.len());
            let all = split_from(s, sep, start);
            assert(all == seq![s.subrange(start, i)] + rest);
            assert(all.drop_first() =~= rest);
            assert(s.subrange(i, i + sep.len()) == sep);
            assert(s.subrange(start, s.len() as int) =~= s.subrange(start, i) + sep
                + s.subrange(i + sep.len(), s.len() as int));
        },
        None => {},
    }
}

} // verus!
