//! Properties of the text primitives and of timestamp rendering.

use vstd::prelude::*;
use crate::text::{
    decimal, digit_value, format_int, is_digit, occurs_at, parse_isize, scan_digits, split,
    split_from, split_inclusive, split_inclusive_from, zeros,
};
use crate::srt_parser::{concat_all, render_time, time_parse, Parsed, SrtTime};

verus! {

pub(crate) proof fn lemma_decimal_digits(n: nat)
    ensures
        decimal(n).len() >= 1,
        forall|i: int| 0 <= i < decimal(n).len() ==> is_digit(#[trigger] decimal(n)[i]),
    decreases n,
{
    if n >= 10 {
        lemma_decimal_digits(n / 10);
        let c = ((n % 10) + 0x30) as char;
        assert(is_digit(c));
        assert forall|i: int| 0 <= i < decimal(n).len() implies is_digit(#[trigger] decimal(n)[i]) by {
            if i < decimal(n / 10).len() {
                assert(decimal(n)[i] == decimal(n / 10)[i]);
            }
        }
    } else {
        let c = (n + 0x30) as char;
        assert(is_digit(c));
    }
}

proof fn lemma_scan_prefix(s1: Seq<char>, s2: Seq<char>, neg: bool, n: int)
    requires
        0 <= n <= s1.len(),
        n <= s2.len(),
        forall|i: int| 0 <= i < n ==> s1[i] == s2[i],
    ensures
        scan_digits(s1, neg, n) == scan_digits(s2, neg, n),
    decreases n,
{
    if n > 0 {
        lemma_scan_prefix(s1, s2, neg, n - 1);
    }
}

proof fn lemma_scan_decimal(m: nat, neg: bool)
    requires
        neg ==> -m >= isize::MIN,
        !neg ==> m <= isize::MAX,
    ensures
        scan_digits(decimal(m), neg, decimal(m).len() as int) == Ok::<int, crate::text::IntError>(
            if neg { -m } else { m as int },
        ),
    decreases m,
{
    if m >= 10 {
        let p = decimal(m / 10);
        lemma_decimal_digits(m / 10);
        lemma_scan_decimal(m / 10, neg);
        let d = decimal(m);
        lemma_scan_prefix(d, p, neg, p.len() as int);
        assert(d.len() == p.len() + 1);
        let c = ((m % 10) + 0x30) as char;
        assert(d[p.len() as int] == c);
        assert(digit_value(c) == m % 10);
        assert((m / 10) * 10 + m % 10 == m) by (nonlinear_arith);
        assert(is_digit(c));
        assert(scan_digits(d, neg, p.len() as int) == Ok::<int, crate::text::IntError>(
            if neg { -(m / 10) } else { (m / 10) as int }));
        assert(d.len() as int - 1 == p.len());
    } else {
        let c = (m + 0x30) as char;
        assert(digit_value(c) == m);
        assert(decimal(m)[0] == c);
        assert(is_digit(c));
        assert(scan_digits(decimal(m), neg, 0) == Ok::<int, crate::text::IntError>(0));
    }
}

proof fn lemma_scan_zeros(s: Seq<char>, k: int, neg: bool, n: int)
    requires
        0 <= n <= k <= s.len(),
        forall|i: int| 0 <= i < k ==> s[i] == '0',
    ensures
        scan_digits(s, neg, n) == Ok::<int, crate::text::IntError>(0),
    decreases n,
{
    if n > 0 {
        lemma_scan_zeros(s, k, neg, n - 1);
        assert(digit_value('0') == 0);
    }
}

proof fn lemma_scan_after_zeros(k: int, d: Seq<char>, neg: bool, j: int)
    requires
        k >= 0,
        0 <= j <= d.len(),
    ensures
        scan_digits(zeros(k) + d, neg, k + j) == scan_digits(d, neg, j),
    decreases j,
{
    let s = zeros(k) + d;
    if j == 0 {
        lemma_scan_zeros(s, k, neg, k);
    } else {
        lemma_scan_after_zeros(k, d, neg, j - 1);
        assert(s[k + j - 1] == d[j - 1]);
    }
}

/// Reading back a zero-padded decimal rendering gives the number.
pub proof fn lemma_parse_format_int(n: isize, width: int)
    ensures
        parse_isize(format_int(n as int, width)) == Ok::<int, crate::text::IntError>(n as int),
{
    if n < 0 {
        let m = (-n) as nat;
        let d = decimal(m);
        lemma_decimal_digits(m);
        let k = if width - 1 - d.len() > 0 { width - 1 - d.len() } else { 0 };
        let s = format_int(n as int, width);
        assert(zeros(width - 1 - d.len()) =~= zeros(k));
        assert(s.drop_first() =~= zeros(k) + d);
        lemma_scan_after_zeros(k, d, true, d.len() as int);
        lemma_scan_decimal(m, true);
    } else {
        let m = n as nat;
        let d = decimal(m);
        lemma_decimal_digits(m);
        let k = if width - d.len() > 0 { width - d.len() } else { 0 };
        let s = format_int(n as int, width);
        assert(zeros(width - d.len()) =~= zeros(k));
        assert(s =~= zeros(k) + d);
        assert(s[0] != '+' && s[0] != '-') by {
            if k == 0 {
                assert(s[0] == d[0]);
            }
        }
        lemma_scan_after_zeros(k, d, false, d.len() as int);
        lemma_scan_decimal(m, false);
    }
}


pub(crate) proof fn lemma_split_shift(p: Seq<char>, b: Seq<char>, sep: Seq<char>, st: int, i: int)
    requires
        0 <= st <= i,
        st <= b.len(),
    ensures
        split_from(p + b, sep, p.len() + st, p.len() + i) == split_from(b, sep, st, i),
    decreases b.len() - i,
{
    let s = p + b;
    let k = sep.len() as int;
    if k == 0 || i + k > b.len() {
        assert(s.subrange(p.len() + st, s.len() as int) =~= b.subrange(st, b.len() as int));
    } else {
        assert(s.subrange(p.len() + i, p.len() + i + k) =~= b.subrange(i, i + k));
        assert(occurs_at(s, sep, p.len() + i) == occurs_at(b, sep, i));
        if occurs_at(b, sep, i) {
            assert(s.subrange(p.len() + st, p.len() + i) =~= b.subrange(st, i));
            lemma_split_shift(p, b, sep, i + k, i + k);
        } else {
            lemma_split_shift(p, b, sep, st, i + 1);
        }
    }
}

proof fn lemma_split_scan_free(s: Seq<char>, c: char, st: int, i: int, end: int)
    requires
        0 <= st <= i <= end <= s.len(),
        forall|j: int| i <= j < end ==> s[j] != c,
    ensures
        split_from(s, seq![c], st, i) == split_from(s, seq![c], st, end),
    decreases end - i,
{
    if i < end {
        assert(!occurs_at(s, seq![c], i)) by {
            if occurs_at(s, seq![c], i) {
                assert(s.subrange(i, i + 1)[0] == s[i]);
            }
        }
        lemma_split_scan_free(s, c, st, i + 1, end);
    }
}

/// Splitting `a + [c] + b` at the character `c`, where `a` holds no `c`.
proof fn lemma_split_char(a: Seq<char>, c: char, b: Seq<char>)
    requires
        forall|j: int| 0 <= j < a.len() ==> a[j] != c,
    ensures
        split(a + seq![c] + b, seq![c]) == seq![a] + split(b, seq![c]),
{
    let s = a + seq![c] + b;
    lemma_split_scan_free(s, c, 0, 0, a.len() as int);
    assert(s.subrange(a.len() as int, a.len() + 1int) =~= seq![c]);
    assert(s.subrange(0, a.len() as int) =~= a);
    assert(s =~= (a + seq![c]) + b);
    lemma_split_shift(a + seq![c], b, seq![c], 0, 0);
}

/// Splitting at `c` a sequence that holds no `c`.
proof fn lemma_split_char_none(a: Seq<char>, c: char)
    requires
        forall|j: int| 0 <= j < a.len() ==> a[j] != c,
    ensures
        split(a, seq![c]) == seq![a],
{
    lemma_split_scan_free(a, c, 0, 0, a.len() as int);
    assert(a.subrange(0, a.len() as int) =~= a);
}

pub(crate) proof fn lemma_format_int_chars(n: int, width: int)
    ensures
        forall|j: int|
            0 <= j < format_int(n, width).len() ==> (is_digit(#[trigger] format_int(n, width)[j])
                || format_int(n, width)[j] == '-'),
{
    if n < 0 {
        lemma_decimal_digits((-n) as nat);
        let d = decimal((-n) as nat);
        let z = zeros(width - 1 - d.len());
        assert forall|j: int| 0 <= j < format_int(n, width).len() implies (is_digit(
            #[trigger] format_int(n, width)[j],
        ) || format_int(n, width)[j] == '-') by {
            if j == 0 {
            } else if j < 1 + z.len() {
                assert(format_int(n, width)[j] == z[j - 1]);
            } else {
                assert(format_int(n, width)[j] == d[j - 1 - z.len()]);
            }
        }
    } else {
        lemma_decimal_digits(n as nat);
        let d = decimal(n as nat);
        let z = zeros(width - d.len());
        assert forall|j: int| 0 <= j < format_int(n, width).len() implies (is_digit(
            #[trigger] format_int(n, width)[j],
        ) || format_int(n, width)[j] == '-') by {
            if j < z.len() {
                assert(format_int(n, width)[j] == z[j]);
            } else {
                assert(format_int(n, width)[j] == d[j - z.len()]);
            }
        }
    }
}

/// Reading back a rendered timestamp gives the same timestamp:
/// `SrtTime::parse(&t.render()) == Ok(t)` for every `t`.
pub proof fn lemma_time_render_parse(t: SrtTime)
    ensures
        time_parse(render_time(t)) == Parsed::Value(t),
{
    let h = format_int(t.hr as int, 2);
    let mi = format_int(t.min as int, 2);
    let se = format_int(t.sec as int, 2);
    let ms = format_int(t.ms as int, 3);
    lemma_format_int_chars(t.hr as int, 2);
    lemma_format_int_chars(t.min as int, 2);
    lemma_format_int_chars(t.sec as int, 2);
    lemma_format_int_chars(t.ms as int, 3);
    let tail = se + seq![','] + ms;
    assert forall|j: int| 0 <= j < tail.len() implies tail[j] != ':' by {
        if j < se.len() {
            assert(tail[j] == se[j]);
        } else if j > se.len() {
            assert(tail[j] == ms[j - se.len() - 1]);
        }
    }
    assert forall|j: int| 0 <= j < h.len() implies h[j] != ':' && h[j] != ',' by {
        assert(is_digit(h[j]) || h[j] == '-');
    }
    assert forall|j: int| 0 <= j < mi.len() implies mi[j] != ':' by {
        assert(is_digit(mi[j]) || mi[j] == '-');
    }
    assert forall|j: int| 0 <= j < se.len() implies se[j] != ',' by {
        assert(is_digit(se[j]) || se[j] == '-');
    }
    assert forall|j: int| 0 <= j < ms.len() implies ms[j] != ',' by {
        assert(is_digit(ms[j]) || ms[j] == '-');
    }
    let r = render_time(t);
    assert(r =~= h + seq![':'] + (mi + seq![':'] + tail));
    lemma_split_char(h, ':', mi + seq![':'] + tail);
    lemma_split_char(mi, ':', tail);
    lemma_split_char_none(tail, ':');
    lemma_split_char(se, ',', ms);
    lemma_split_char_none(ms, ',');
    let parts = split(r, seq![':']);
    assert(parts =~= seq![h, mi, tail]);
    let secs = split(tail, seq![',']);
    assert(secs =~= seq![se, ms]);
    lemma_parse_format_int(t.hr, 2);
    lemma_parse_format_int(t.min, 2);
    lemma_parse_format_int(t.sec, 2);
    lemma_parse_format_int(t.ms, 3);
}


proof fn lemma_split_skip(s: Seq<char>, sep: Seq<char>, st: int, i: int, end: int)
    requires
        sep.len() > 0,
        0 <= st <= i <= end,
        end + sep.len() <= s.len(),
        forall|j: int| i <= j < end ==> !occurs_at(s, sep, j),
    ensures
        split_from(s, sep, st, i) == split_from(s, sep, st, end),
    decreases end - i,
{
    if i < end {
        lemma_split_skip(s, sep, st, i + 1, end);
    }
}

/// Splitting `a + sep + b` where no occurrence of `sep` starts inside `a`.
pub(crate) proof fn lemma_split_first(a: Seq<char>, sep: Seq<char>, b: Seq<char>)
    requires
        sep.len() > 0,
        forall|j: int| 0 <= j < a.len() ==> !occurs_at(a + sep + b, sep, j),
    ensures
        split(a + sep + b, sep) == seq![a] + split(b, sep),
{
    let s = a + sep + b;
    lemma_split_skip(s, sep, 0, 0, a.len() as int);
    assert(s.subrange(a.len() as int, a.len() + sep.len() as int) =~= sep);
    assert(s.subrange(0, a.len() as int) =~= a);
    assert(s =~= (a + sep) + b);
    lemma_split_shift(a + sep, b, sep, 0, 0);
}

proof fn lemma_split_skip_all(s: Seq<char>, sep: Seq<char>, st: int, i: int)
    requires
        sep.len() > 0,
        0 <= st <= i <= s.len(),
        forall|j: int| i <= j ==> !occurs_at(s, sep, j),
    ensures
        split_from(s, sep, st, i) == seq![s.subrange(st, s.len() as int)],
    decreases s.len() - i,
{
    if i + sep.len() <= s.len() {
        lemma_split_skip_all(s, sep, st, i + 1);
    }
}

/// Splitting a sequence in which `sep` never occurs.
pub(crate) proof fn lemma_split_none(s: Seq<char>, sep: Seq<char>)
    requires
        sep.len() > 0,
        forall|j: int| !occurs_at(s, sep, j),
    ensures
        split(s, sep) == seq![s],
{
    lemma_split_skip_all(s, sep, 0, 0);
    assert(s.subrange(0, s.len() as int) =~= s);
}

proof fn lemma_split_inclusive_shift(p: Seq<char>, b: Seq<char>, sep: Seq<char>, st: int, i: int)
    requires
        0 <= st <= i,
        st <= b.len(),
    ensures
        split_inclusive_from(p + b, sep, p.len() + st, p.len() + i) == split_inclusive_from(
            b,
            sep,
            st,
            i,
        ),
    decreases b.len() - i,
{
    let s = p + b;
    let k = sep.len() as int;
    if k == 0 || i + k > b.len() {
        assert(s.subrange(p.len() + st, s.len() as int) =~= b.subrange(st, b.len() as int));
    } else {
        assert(s.subrange(p.len() + i, p.len() + i + k) =~= b.subrange(i, i + k));
        assert(occurs_at(s, sep, p.len() + i) == occurs_at(b, sep, i));
        if occurs_at(b, sep, i) {
            assert(s.subrange(p.len() + st, p.len() + i + k) =~= b.subrange(st, i + k));
            lemma_split_inclusive_shift(p, b, sep, i + k, i + k);
        } else {
            lemma_split_inclusive_shift(p, b, sep, st, i + 1);
        }
    }
}

proof fn lemma_split_inclusive_skip(s: Seq<char>, sep: Seq<char>, st: int, i: int, end: int)
    requires
        sep.len() > 0,
        0 <= st <= i <= end,
        end + sep.len() <= s.len(),
        forall|j: int| i <= j < end ==> !occurs_at(s, sep, j),
    ensures
        split_inclusive_from(s, sep, st, i) == split_inclusive_from(s, sep, st, end),
    decreases end - i,
{
    if i < end {
        lemma_split_inclusive_skip(s, sep, st, i + 1, end);
    }
}

/// Inclusive splitting of `a + sep + b` where no occurrence of `sep` starts inside `a`.
pub(crate) proof fn lemma_split_inclusive_first(a: Seq<char>, sep: Seq<char>, b: Seq<char>)
    requires
        sep.len() > 0,
        forall|j: int| 0 <= j < a.len() ==> !occurs_at(a + sep + b, sep, j),
    ensures
        split_inclusive(a + sep + b, sep) == seq![a + sep] + split_inclusive(b, sep),
{
    let s = a + sep + b;
    lemma_split_inclusive_skip(s, sep, 0, 0, a.len() as int);
    assert(s.subrange(a.len() as int, a.len() + sep.len() as int) =~= sep);
    assert(s.subrange(0, a.len() + sep.len() as int) =~= a + sep);
    assert(s =~= (a + sep) + b);
    lemma_split_inclusive_shift(a + sep, b, sep, 0, 0);
}

proof fn lemma_concat_prepend(x: Seq<char>, r: Seq<Seq<char>>)
    ensures
        concat_all(seq![x] + r) == x + concat_all(r),
    decreases r.len(),
{
    if r.len() == 0 {
        assert((seq![x] + r).drop_last() =~= Seq::<Seq<char>>::empty());
        assert(concat_all(Seq::<Seq<char>>::empty()) == Seq::<char>::empty());
        assert(x + concat_all(r) =~= x);
        assert(concat_all(seq![x] + r) =~= x);
    } else {
        lemma_concat_prepend(x, r.drop_last());
        assert((seq![x] + r).drop_last() =~= seq![x] + r.drop_last());
        assert((seq![x] + r).last() == r.last());
        assert(x + concat_all(r) =~= x + concat_all(r.drop_last()) + r.last());
    }
}

proof fn lemma_concat_split_inclusive_from(s: Seq<char>, sep: Seq<char>, st: int, i: int)
    requires
        0 <= st <= i,
        st <= s.len(),
    ensures
        concat_all(split_inclusive_from(s, sep, st, i)) == s.subrange(st, s.len() as int),
    decreases s.len() - i,
{
    let k = sep.len() as int;
    if k == 0 || i + k > s.len() {
        if st < s.len() {
            let r = seq![s.subrange(st, s.len() as int)];
            assert(r.drop_last() =~= Seq::<Seq<char>>::empty());
            assert(concat_all(Seq::<Seq<char>>::empty()) =~= Seq::<char>::empty());
            assert(concat_all(r) == concat_all(r.drop_last()) + r.last());
            assert(concat_all(r) =~= s.subrange(st, s.len() as int));
        } else {
            assert(s.subrange(st, s.len() as int) =~= Seq::<char>::empty());
        }
    } else if occurs_at(s, sep, i) {
        lemma_concat_split_inclusive_from(s, sep, i + k, i + k);
        lemma_concat_prepend(s.subrange(st, i + k), split_inclusive_from(s, sep, i + k, i + k));
        assert(s.subrange(st, i + k) + s.subrange(i + k, s.len() as int) =~= s.subrange(
            st,
            s.len() as int,
        ));
    } else {
        lemma_concat_split_inclusive_from(s, sep, st, i + 1);
    }
}

/// Joining the pieces of an inclusive split gives the sequence back.
pub(crate) proof fn lemma_concat_split_inclusive(s: Seq<char>, sep: Seq<char>)
    ensures
        concat_all(split_inclusive(s, sep)) == s,
{
    lemma_concat_split_inclusive_from(s, sep, 0, 0);
    assert(s.subrange(0, s.len() as int) =~= s);
}

} // verus!
