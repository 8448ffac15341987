//! Character-level text utilities with the exact semantics of the std
//! string operations they stand for (`trim`, `split`, `split_inclusive`,
//! integer parsing and zero-padded decimal rendering).

use vstd::prelude::*;

verus! {

/// Appends one character to a `String` (`String::push`).
#[verifier::external_body]
pub(crate) fn push_char(s: &mut String, c: char)
    ensures
        final(s)@ == old(s)@.push(c),
{
    s.push(c);
}

/// The characters of a string slice, in order.
pub fn chars_of(s: &str) -> (v: Vec<char>)
    ensures
        v@ == s@,
{
    let mut v: Vec<char> = Vec::new();
    for c in it: s.chars()
        invariant
            v@ == it.seq().take(it.index() as int),
    {
        v.push(c);
    }
    v
}

/// The string made of the given characters, in order.
pub fn string_of(v: &Vec<char>) -> (s: String)
    ensures
        s@ == v@,
{
    let mut s = String::new();
    let mut i: usize = 0;
    while i < v.len()
        invariant
            i <= v.len(),
            s@ == v@.take(i as int),
        decreases v.len() - i,
    {
        push_char(&mut s, v[i]);
        assert(v@.take(i + 1) == v@.take(i as int).push(v@[i as int]));
        i = i + 1;
    }
    assert(v@.take(v.len() as int) == v@);
    s
}


/// `char::is_whitespace`: the Unicode `White_Space` property.
pub open spec fn is_whitespace(c: char) -> bool {
    let u = c as u32;
    u == 0x20 || (0x09 <= u && u <= 0x0d) || u == 0x85 || u == 0xa0 || u == 0x1680 || (0x2000 <= u
        && u <= 0x200a) || u == 0x2028 || u == 0x2029 || u == 0x202f || u == 0x205f || u == 0x3000
}

/// Executable `char::is_whitespace`.
pub fn char_is_whitespace(c: char) -> (b: bool)
    ensures
        b == is_whitespace(c),
{
    let u = c as u32;
    u == 0x20 || (0x09 <= u && u <= 0x0d) || u == 0x85 || u == 0xa0 || u == 0x1680 || (0x2000 <= u
        && u <= 0x200a) || u == 0x2028 || u == 0x2029 || u == 0x202f || u == 0x205f || u == 0x3000
}

/// `s` without its leading whitespace.
pub open spec fn trim_start(s: Seq<char>) -> Seq<char>
    decreases s.len(),
{
    if s.len() > 0 && is_whitespace(s[0]) {
        trim_start(s.drop_first())
    } else {
        s
    }
}

/// `s` without its trailing whitespace.
pub open spec fn trim_end(s: Seq<char>) -> Seq<char>
    decreases s.len(),
{
    if s.len() > 0 && is_whitespace(s.last()) {
        trim_end(s.drop_last())
    } else {
        s
    }
}

/// `str::trim`: `s` without leading and trailing whitespace.
pub open spec fn trim(s: Seq<char>) -> Seq<char> {
    trim_end(trim_start(s))
}

pub(crate) proof fn lemma_trim_start_skip(s: Seq<char>, k: int)
    requires
        0 <= k <= s.len(),
        forall|j: int| 0 <= j < k ==> is_whitespace(#[trigger] s[j]),
    ensures
        trim_start(s) == trim_start(s.skip(k)),
    decreases k,
{
    if k > 0 {
        assert(s.drop_first().skip(k - 1) =~= s.skip(k));
        lemma_trim_start_skip(s.drop_first(), k - 1);
    } else {
        assert(s.skip(0) =~= s);
    }
}

pub(crate) proof fn lemma_trim_end_take(s: Seq<char>, k: int)
    requires
        0 <= k <= s.len(),
        forall|j: int| k <= j < s.len() ==> is_whitespace(#[trigger] s[j]),
    ensures
        trim_end(s) == trim_end(s.take(k)),
    decreases s.len() - k,
{
    if k < s.len() {
        assert(s.drop_last().take(k) =~= s.take(k));
        lemma_trim_end_take(s.drop_last(), k);
    } else {
        assert(s.take(k) =~= s);
    }
}

/// The characters `v[lo..hi]`.
pub fn sub_chars(v: &Vec<char>, lo: usize, hi: usize) -> (r: Vec<char>)
    requires
        lo <= hi <= v.len(),
    ensures
        r@ == v@.subrange(lo as int, hi as int),
{
    let mut r: Vec<char> = Vec::new();
    let mut i = lo;
    while i < hi
        invariant
            lo <= i <= hi <= v.len(),
            r@ == v@.subrange(lo as int, i as int),
        decreases hi - i,
    {
        r.push(v[i]);
        assert(v@.subrange(lo as int, i + 1) == v@.subrange(lo as int, i as int).push(v@[i as int]));
        i = i + 1;
    }
    r
}

/// `str::trim` on a character vector.
pub fn trim_chars(v: &Vec<char>) -> (r: Vec<char>)
    ensures
        r@ == trim(v@),
{
    let mut lo: usize = 0;
    while lo < v.len() && char_is_whitespace(v[lo])
        invariant
            lo <= v.len(),
            forall|j: int| 0 <= j < lo ==> is_whitespace(#[trigger] v@[j]),
        decreases v.len() - lo,
    {
        lo = lo + 1;
    }
    proof {
        lemma_trim_start_skip(v@, lo as int);
    }
    let ghost rest = v@.skip(lo as int);
    assert(trim_start(rest) == rest);
    let mut hi: usize = v.len();
    while hi > lo && char_is_whitespace(v[hi - 1])
        invariant
            lo <= hi <= v.len(),
            forall|j: int| hi <= j < v.len() ==> is_whitespace(#[trigger] v@[j]),
        decreases hi,
    {
        hi = hi - 1;
    }
    proof {
        assert forall|j: int| (hi - lo) <= j < rest.len() implies is_whitespace(#[trigger] rest[j]) by {
            assert(rest[j] == v@[j + lo]);
        }
        lemma_trim_end_take(rest, hi - lo);
        assert(rest.take(hi - lo) =~= v@.subrange(lo as int, hi as int));
    }
    sub_chars(v, lo, hi)
}


/// `sep` occurs in `s` at position `i`.
pub open spec fn occurs_at(s: Seq<char>, sep: Seq<char>, i: int) -> bool {
    0 <= i && i + sep.len() <= s.len() && s.subrange(i, i + sep.len()) == sep
}

/// The pieces of `s[start..]` that `str::split` yields for a non-empty
/// separator, scanning for the leftmost occurrence from position `i`.
pub open spec fn split_from(s: Seq<char>, sep: Seq<char>, start: int, i: int) -> Seq<Seq<char>>
    decreases s.len() - i,
{
    if sep.len() == 0 || i < start || i + sep.len() > s.len() {
        seq![s.subrange(start, s.len() as int)]
    } else if occurs_at(s, sep, i) {
        seq![s.subrange(start, i)] + split_from(s, sep, i + sep.len(), i + sep.len())
    } else {
        split_from(s, sep, start, i + 1)
    }
}

/// `str::split` with a non-empty string pattern: the pieces between the
/// leftmost non-overlapping occurrences of `sep`.
pub open spec fn split(s: Seq<char>, sep: Seq<char>) -> Seq<Seq<char>> {
    split_from(s, sep, 0, 0)
}

/// The pieces of `s[start..]` that `str::split_inclusive` yields, scanning
/// from position `i`: each piece keeps its terminating `sep`, and no empty
/// piece follows a terminator at the very end.
pub open spec fn split_inclusive_from(s: Seq<char>, sep: Seq<char>, start: int, i: int) -> Seq<
    Seq<char>,
>
    decreases s.len() - i,
{
    if sep.len() == 0 || i < start || i + sep.len() > s.len() {
        if start < s.len() {
            seq![s.subrange(start, s.len() as int)]
        } else {
            seq![]
        }
    } else if occurs_at(s, sep, i) {
        seq![s.subrange(start, i + sep.len())] + split_inclusive_from(
            s,
            sep,
            i + sep.len(),
            i + sep.len(),
        )
    } else {
        split_inclusive_from(s, sep, start, i + 1)
    }
}

/// `str::split_inclusive` with a non-empty string pattern.
pub open spec fn split_inclusive(s: Seq<char>, sep: Seq<char>) -> Seq<Seq<char>> {
    split_inclusive_from(s, sep, 0, 0)
}

/// The character sequences held by a vector of character vectors.
pub open spec fn views(r: Seq<Vec<char>>) -> Seq<Seq<char>> {
    r.map_values(|v: Vec<char>| v@)
}

/// The character sequences held by a vector of strings.
pub open spec fn string_views(r: Seq<String>) -> Seq<Seq<char>> {
    r.map_values(|s: String| s@)
}

/// Whether `sep` occurs in `v` at position `i`.
pub fn occurs_at_exec(v: &Vec<char>, sep: &Vec<char>, i: usize) -> (b: bool)
    ensures
        b == occurs_at(v@, sep@, i as int),
{
    if sep.len() > v.len() || i > v.len() - sep.len() {
        return false;
    }
    let mut k: usize = 0;
    while k < sep.len()
        invariant
            k <= sep.len(),
            i + sep.len() <= v.len(),
            forall|j: int| 0 <= j < k ==> v@[i + j] == sep@[j],
        decreases sep.len() - k,
    {
        if v[i + k] != sep[k] {
            assert(v@.subrange(i as int, i + sep.len())[k as int] != sep@[k as int]);
            return false;
        }
        k = k + 1;
    }
    assert(v@.subrange(i as int, i + sep.len()) =~= sep@);
    true
}

/// `str::split` on character vectors (non-empty separator).
pub fn split_chars(v: &Vec<char>, sep: &Vec<char>) -> (r: Vec<Vec<char>>)
    requires
        sep.len() > 0,
    ensures
        views(r@) == split(v@, sep@),
{
    let mut r: Vec<Vec<char>> = Vec::new();
    let mut start: usize = 0;
    let mut i: usize = 0;
    while i < v.len() && sep.len() <= v.len() - i
        invariant
            0 <= start <= i <= v.len(),
            sep.len() > 0,
            views(r@) + split_from(v@, sep@, start as int, i as int) == split(v@, sep@),
        decreases v.len() - i,
    {
        if occurs_at_exec(v, sep, i) {
            let piece = sub_chars(v, start, i);
            let ghost before = views(r@);
            let ghost old_start = start;
            let ghost old_i = i;
            r.push(piece);
            assert(views(r@) =~= before.push(piece@));
            i = i + sep.len();
            start = i;
            assert(before + split_from(v@, sep@, old_start as int, old_i as int)
                =~= views(r@) + split_from(v@, sep@, start as int, i as int)) by {
                assert(split_from(v@, sep@, old_start as int, old_i as int)
                    == seq![piece@] + split_from(v@, sep@, start as int, i as int));
            }
        } else {
            i = i + 1;
        }
    }
    let last = sub_chars(v, start, v.len());
    let ghost before = views(r@);
    r.push(last);
    assert(views(r@) =~= before.push(last@));
    assert(views(r@) =~= before + split_from(v@, sep@, start as int, i as int));
    r
}

/// `str::split_inclusive` on character vectors (non-empty separator).
pub fn split_inclusive_chars(v: &Vec<char>, sep: &Vec<char>) -> (r: Vec<Vec<char>>)
    requires
        sep.len() > 0,
    ensures
        views(r@) == split_inclusive(v@, sep@),
{
    let mut r: Vec<Vec<char>> = Vec::new();
    let mut start: usize = 0;
    let mut i: usize = 0;
    while i < v.len() && sep.len() <= v.len() - i
        invariant
            0 <= start <= i <= v.len(),
            sep.len() > 0,
            views(r@) + split_inclusive_from(v@, sep@, start as int, i as int)
                == split_inclusive(v@, sep@),
        decreases v.len() - i,
    {
        if occurs_at_exec(v, sep, i) {
            let piece = sub_chars(v, start, i + sep.len());
            let ghost before = views(r@);
            let ghost old_start = start;
            let ghost old_i = i;
            r.push(piece);
            assert(views(r@) =~= before.push(piece@));
            i = i + sep.len();
            start = i;
            assert(before + split_inclusive_from(v@, sep@, old_start as int, old_i as int)
                =~= views(r@) + split_inclusive_from(v@, sep@, start as int, i as int)) by {
                assert(split_inclusive_from(v@, sep@, old_start as int, old_i as int)
                    == seq![piece@] + split_inclusive_from(v@, sep@, start as int, i as int));
            }
        } else {
            i = i + 1;
        }
    }
    if start < v.len() {
        let last = sub_chars(v, start, v.len());
        let ghost before = views(r@);
        r.push(last);
        assert(views(r@) =~= before.push(last@));
        assert(views(r@) =~= before + split_inclusive_from(v@, sep@, start as int, i as int));
    } else {
        assert(views(r@) =~= views(r@) + split_inclusive_from(v@, sep@, start as int, i as int));
    }
    r
}


/// Why a string is not a valid `isize` (the kinds of `core::num::ParseIntError`).
#[derive(Debug, Clone, Copy, PartialEq, Eq, Structural)]
pub enum IntError {
    Empty,
    InvalidDigit,
    PosOverflow,
    NegOverflow,
}

/// An ASCII decimal digit.
pub open spec fn is_digit(c: char) -> bool {
    0x30 <= (c as u32) && (c as u32) <= 0x39
}

/// The value of an ASCII decimal digit.
pub open spec fn digit_value(c: char) -> int {
    (c as u32) - 0x30
}

/// The value accumulated from the first `n` characters of `d`, read as
/// decimal digits of a number of sign `neg`, failing at the first
/// character that is not a digit or that takes the value out of `isize`.
pub open spec fn scan_digits(d: Seq<char>, neg: bool, n: int) -> Result<int, IntError>
    decreases n,
{
    if n <= 0 {
        Ok(0)
    } else {
        match scan_digits(d, neg, n - 1) {
            Err(e) => Err(e),
            Ok(acc) => {
                if !is_digit(d[n - 1]) {
                    Err(IntError::InvalidDigit)
                } else {
                    let v = if neg {
                        acc * 10 - digit_value(d[n - 1])
                    } else {
                        acc * 10 + digit_value(d[n - 1])
                    };
                    if neg && v < isize::MIN {
                        Err(IntError::NegOverflow)
                    } else if !neg && v > isize::MAX {
                        Err(IntError::PosOverflow)
                    } else {
                        Ok(v)
                    }
                }
            },
        }
    }
}

/// `<isize as FromStr>::from_str`: an optional `+` or `-` followed by
/// decimal digits, with the value inside `isize`.
pub open spec fn parse_isize(s: Seq<char>) -> Result<int, IntError> {
    if s.len() == 0 {
        Err(IntError::Empty)
    } else if s.len() == 1 && (s[0] == '+' || s[0] == '-') {
        Err(IntError::InvalidDigit)
    } else if s[0] == '+' {
        scan_digits(s.drop_first(), false, s.len() - 1)
    } else if s[0] == '-' {
        scan_digits(s.drop_first(), true, s.len() - 1)
    } else {
        scan_digits(s, false, s.len() as int)
    }
}

proof fn lemma_scan_err_persists(d: Seq<char>, neg: bool, n: int, m: int)
    requires
        0 <= n <= m,
    ensures
        scan_digits(d, neg, n) is Err ==> scan_digits(d, neg, m) == scan_digits(d, neg, n),
    decreases m - n,
{
    if n < m {
        lemma_scan_err_persists(d, neg, n, m - 1);
    }
}

/// Executable `<isize as FromStr>::from_str` on characters.
pub fn parse_isize_chars(v: &Vec<char>) -> (r: Result<isize, IntError>)
    ensures
        match r {
            Ok(n) => parse_isize(v@) == Ok::<int, IntError>(n as int),
            Err(e) => parse_isize(v@) == Err::<int, IntError>(e),
        },
{
    if v.len() == 0 {
        return Err(IntError::Empty);
    }
    if v.len() == 1 && (v[0] == '+' || v[0] == '-') {
        return Err(IntError::InvalidDigit);
    }
    let neg = v[0] == '-';
    let start: usize = if v[0] == '+' || v[0] == '-' { 1 } else { 0 };
    let ghost d = v@.skip(start as int);
    assert(start == 1 ==> d =~= v@.drop_first());
    assert(start == 0 ==> d =~= v@);
    assert(parse_isize(v@) == scan_digits(d, neg, d.len() as int));
    let mut acc: isize = 0;
    let mut k: usize = start;
    while k < v.len()
        invariant
            start <= k <= v.len(),
            d == v@.skip(start as int),
            scan_digits(d, neg, k - start) == Ok::<int, IntError>(acc as int),
            parse_isize(v@) == scan_digits(d, neg, d.len() as int),
            d.len() == v.len() - start,
            neg ==> acc <= 0,
            !neg ==> acc >= 0,
        decreases v.len() - k,
    {
        let c = v[k];
        assert(d[k - start] == c);
        proof {
            lemma_scan_err_persists(d, neg, (k - start + 1) as int, d.len() as int);
        }
        let u = c as u32;
        if u < 0x30 || u > 0x39 {
            return Err(IntError::InvalidDigit);
        }
        let dv = (u - 0x30) as isize;
        let m = acc.checked_mul(10);
        if m.is_none() {
            if neg {
                return Err(IntError::NegOverflow);
            } else {
                return Err(IntError::PosOverflow);
            }
        }
        let m = m.unwrap();
        if neg {
            match m.checked_sub(dv) {
                Some(x) => {
                    acc = x;
                },
                None => {
                    return Err(IntError::NegOverflow);
                },
            }
        } else {
            match m.checked_add(dv) {
                Some(x) => {
                    acc = x;
                },
                None => {
                    return Err(IntError::PosOverflow);
                },
            }
        }
        k = k + 1;
    }
    Ok(acc)
}

/// The decimal digits of `n`, most significant first, without leading zeros.
pub open spec fn decimal(n: nat) -> Seq<char>
    decreases n,
{
    if n < 10 {
        seq![(n + 0x30) as char]
    } else {
        decimal(n / 10).push(((n % 10) + 0x30) as char)
    }
}

/// `count` copies of `'0'`.
pub open spec fn zeros(count: int) -> Seq<char> {
    Seq::new(if count > 0 { count as nat } else { 0 }, |i: int| '0')
}

/// `format!("{:0w$}", n)`: the decimal form of `n`, zero-padded after the
/// sign to at least `width` characters.
pub open spec fn format_int(n: int, width: int) -> Seq<char> {
    if n < 0 {
        let d = decimal((-n) as nat);
        seq!['-'] + zeros(width - 1 - d.len()) + d
    } else {
        let d = decimal(n as nat);
        zeros(width - d.len()) + d
    }
}

/// The decimal digits of `n`.
pub fn decimal_chars(n: usize) -> (r: Vec<char>)
    ensures
        r@ == decimal(n as nat),
{
    let mut acc: Vec<char> = Vec::new();
    let mut m: usize = n;
    while m >= 10
        invariant
            decimal(n as nat) == decimal(m as nat) + acc@,
        decreases m,
    {
        let c = char_of_digit(m % 10);
        let ghost before = acc@;
        acc.insert(0, c);
        assert(decimal(m as nat) == decimal((m / 10) as nat).push(c));
        assert(acc@ =~= seq![c] + before);
        assert(decimal(m as nat) + before =~= decimal((m / 10) as nat) + acc@);
        m = m / 10;
    }
    let c = char_of_digit(m);
    let ghost before = acc@;
    acc.insert(0, c);
    assert(acc@ =~= decimal(m as nat) + before);
    acc
}

fn char_of_digit(d: usize) -> (c: char)
    requires
        d < 10,
    ensures
        c == (d + 0x30) as char,
{
    if d == 0 { '0' }
    else if d == 1 { '1' }
    else if d == 2 { '2' }
    else if d == 3 { '3' }
    else if d == 4 { '4' }
    else if d == 5 { '5' }
    else if d == 6 { '6' }
    else if d == 7 { '7' }
    else if d == 8 { '8' }
    else { '9' }
}

/// Appends `format!("{:0w$}", n)` to `out`.
pub fn push_int(out: &mut Vec<char>, n: isize, width: usize)
    ensures
        final(out)@ == old(out)@ + format_int(n as int, width as int),
{
    let mag: usize = if n < 0 { ((-(n + 1)) as usize) + 1 } else { n as usize };
    let d = decimal_chars(mag);
    let ghost start = out@;
    let mut fill: usize = 0;
    if n < 0 {
        out.push('-');
        if width >= 1 && width - 1 > d.len() {
            fill = width - 1 - d.len();
        }
    } else if width > d.len() {
        fill = width - d.len();
    }
    let ghost prefix = out@;
    let mut i: usize = 0;
    while i < fill
        invariant
            i <= fill,
            out@ == prefix + zeros(i as int),
        decreases fill - i,
    {
        out.push('0');
        assert(zeros(i + 1) =~= zeros(i as int).push('0'));
        i = i + 1;
    }
    let mut j: usize = 0;
    while j < d.len()
        invariant
            j <= d.len(),
            out@ == prefix + zeros(fill as int) + d@.take(j as int),
        decreases d.len() - j,
    {
        out.push(d[j]);
        assert(d@.take(j + 1) =~= d@.take(j as int).push(d@[j as int]));
        j = j + 1;
    }
    assert(d@.take(d.len() as int) =~= d@);
    if n < 0 {
        assert(zeros(fill as int) =~= zeros(width - 1 - d@.len()));
        assert(out@ =~= start + format_int(n as int, width as int));
    } else {
        assert(zeros(fill as int) =~= zeros(width - d@.len()));
        assert(out@ =~= start + format_int(n as int, width as int));
    }
}


/// Whether two character vectors hold the same characters.
pub fn chars_eq(a: &Vec<char>, b: &Vec<char>) -> (r: bool)
    ensures
        r == (a@ == b@),
{
    if a.len() != b.len() {
        return false;
    }
    let mut i: usize = 0;
    while i < a.len()
        invariant
            a.len() == b.len(),
            i <= a.len(),
            forall|j: int| 0 <= j < i ==> a@[j] == b@[j],
        decreases a.len() - i,
    {
        if a[i] != b[i] {
            return false;
        }
        i = i + 1;
    }
    assert(a@ =~= b@);
    true
}

} // verus!
