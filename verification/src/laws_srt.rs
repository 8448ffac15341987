//! Reading back a rendered subtitle file gives the same subtitles.

use vstd::prelude::*;
use crate::text::{
    decimal, digit_value, format_int, is_digit, is_whitespace, occurs_at, parse_isize, split, split_inclusive,
    trim, trim_end, trim_start, zeros, lemma_trim_end_take,
};
use crate::srt_parser::{
    arrow, blank_line, blocks_parse, concat_all, crlf, render_block, render_blocks, render_time,
    srt_parse, srt_view, subtitle_parse, time_parse, Parsed, Srt, SrtTime,
};
use crate::laws_text::{
    lemma_concat_split_inclusive, lemma_decimal_digits, lemma_format_int_chars,
    lemma_parse_format_int, lemma_split_first, lemma_split_inclusive_first, lemma_split_none,
    lemma_time_render_parse,
};

verus! {

/// A subtitle as its number, times and text.
pub type SubView = (isize, SrtTime, SrtTime, Seq<char>);

/// A text that survives rendering and reading back: not empty, without
/// surrounding whitespace, and without a blank line (`\r\n\r\n`) inside.
pub open spec fn text_ok(t: Seq<char>) -> bool {
    &&& t.len() > 0
    &&& trim(t) == t
    &&& forall|j: int| !occurs_at(t, blank_line(), j)
}

/// The time line of a block: `start --> end`.
pub open spec fn time_line(s: SubView) -> Seq<char> {
    render_time(s.1) + arrow() + render_time(s.2)
}

/// A rendered block without its trailing blank line.
pub open spec fn chunk(s: SubView) -> Seq<char> {
    format_int(s.0 as int, 0) + crlf() + time_line(s) + crlf() + s.3
}

/// Every subtitle's chunk.
pub open spec fn chunks_of(subs: Seq<SubView>) -> Seq<Seq<char>> {
    subs.map_values(|s: SubView| chunk(s))
}

/// The rendered blocks joined by blank lines.
pub open spec fn joined(subs: Seq<SubView>) -> Seq<char>
    decreases subs.len(),
{
    if subs.len() == 0 {
        seq![]
    } else if subs.len() == 1 {
        chunk(subs[0])
    } else {
        chunk(subs[0]) + blank_line() + joined(subs.drop_first())
    }
}

proof fn lemma_trim_start_len(s: Seq<char>)
    ensures
        trim_start(s).len() <= s.len(),
        s.len() > 0 && is_whitespace(s[0]) ==> trim_start(s).len() < s.len(),
    decreases s.len(),
{
    if s.len() > 0 && is_whitespace(s[0]) {
        lemma_trim_start_len(s.drop_first());
    }
}

proof fn lemma_trim_end_len(s: Seq<char>)
    ensures
        trim_end(s).len() <= s.len(),
        s.len() > 0 && is_whitespace(s.last()) ==> trim_end(s).len() < s.len(),
        forall|i: int| 0 <= i < trim_end(s).len() ==> trim_end(s)[i] == s[i],
    decreases s.len(),
{
    if s.len() > 0 && is_whitespace(s.last()) {
        lemma_trim_end_len(s.drop_last());
        assert forall|i: int| 0 <= i < trim_end(s).len() implies trim_end(s)[i] == s[i] by {
            assert(s.drop_last()[i] == s[i]);
        }
    }
}

proof fn lemma_trimmed_ends(t: Seq<char>)
    requires
        t.len() > 0,
        trim(t) == t,
    ensures
        !is_whitespace(t[0]),
        !is_whitespace(t.last()),
{
    lemma_trim_start_len(t);
    lemma_trim_end_len(trim_start(t));
    if is_whitespace(t[0]) {
        assert(trim(t).len() < t.len());
    }
    assert(trim_start(t) == t) by {
        if trim_start(t) != t {
            if t.len() > 0 && is_whitespace(t[0]) {
            } else {
            }
        }
    }
    if is_whitespace(t.last()) {
        assert(trim_end(t).len() < t.len());
    }
}

/// `x + w` trimmed is `x` when `x` starts and ends with non-whitespace and
/// `w` is all whitespace.
proof fn lemma_trim_suffix(x: Seq<char>, w: Seq<char>)
    requires
        x.len() > 0,
        !is_whitespace(x[0]),
        !is_whitespace(x.last()),
        forall|i: int| 0 <= i < w.len() ==> is_whitespace(#[trigger] w[i]),
    ensures
        trim(x + w) == x,
{
    let s = x + w;
    assert(trim_start(s) == s);
    assert forall|j: int| x.len() <= j < s.len() implies is_whitespace(#[trigger] s[j]) by {
        assert(s[j] == w[j - x.len()]);
    }
    lemma_trim_end_take(s, x.len() as int);
    assert(s.take(x.len() as int) =~= x);
}

proof fn lemma_format_int_shape(n: int, width: int)
    ensures
        format_int(n, width).len() > 0,
        is_digit(format_int(n, width).last()),
        forall|j: int|
            0 <= j < format_int(n, width).len() ==> (is_digit(#[trigger] format_int(n, width)[j])
                || format_int(n, width)[j] == '-'),
{
    lemma_format_int_chars(n, width);
    if n < 0 {
        lemma_decimal_digits((-n) as nat);
        let d = decimal((-n) as nat);
        let f = format_int(n, width);
        assert(f.last() == d.last());
    } else {
        lemma_decimal_digits(n as nat);
        let d = decimal(n as nat);
        let f = format_int(n, width);
        assert(f.last() == d.last());
    }
}

/// The characters of a rendered timestamp are digits, `-`, `:` and `,`;
/// it starts with a digit or `-` and ends with a digit.
proof fn lemma_render_time_shape(t: SrtTime)
    ensures
        render_time(t).len() > 0,
        is_digit(render_time(t)[0]) || render_time(t)[0] == '-',
        is_digit(render_time(t).last()),
        forall|j: int|
            0 <= j < render_time(t).len() ==> (is_digit(#[trigger] render_time(t)[j])
                || render_time(t)[j] == '-' || render_time(t)[j] == ':' || render_time(t)[j] == ','),
{
    let h = format_int(t.hr as int, 2);
    let mi = format_int(t.min as int, 2);
    let se = format_int(t.sec as int, 2);
    let ms = format_int(t.ms as int, 3);
    lemma_format_int_shape(t.hr as int, 2);
    lemma_format_int_shape(t.min as int, 2);
    lemma_format_int_shape(t.sec as int, 2);
    lemma_format_int_shape(t.ms as int, 3);
    let r = render_time(t);
    assert(r[0] == h[0]);
    assert(r.last() == ms.last());
    assert forall|j: int| 0 <= j < r.len() implies (is_digit(#[trigger] r[j]) || r[j] == '-' || r[j]
        == ':' || r[j] == ',') by {
        let a = h.len() as int;
        let b = a + 1 + mi.len();
        let c = b + 1 + se.len();
        if j < a {
            assert(r[j] == h[j]);
        } else if j == a {
        } else if j < b {
            assert(r[j] == mi[j - a - 1]);
        } else if j == b {
        } else if j < c {
            assert(r[j] == se[j - b - 1]);
        } else if j == c {
        } else {
            assert(r[j] == ms[j - c - 1]);
        }
    }
}

proof fn lemma_time_line_shape(s: SubView)
    ensures
        time_line(s).len() > 0,
        is_digit(time_line(s)[0]) || time_line(s)[0] == '-',
        is_digit(time_line(s).last()),
        forall|j: int| 0 <= j < time_line(s).len() ==> #[trigger] time_line(s)[j] != '\r',
{
    let r1 = render_time(s.1);
    let r2 = render_time(s.2);
    lemma_render_time_shape(s.1);
    lemma_render_time_shape(s.2);
    let t = time_line(s);
    assert(t[0] == r1[0]);
    assert(t.last() == r2.last());
    assert forall|j: int| 0 <= j < t.len() implies #[trigger] t[j] != '\r' by {
        if j < r1.len() {
            assert(t[j] == r1[j]);
        } else if j < r1.len() + 5 {
            assert(t[j] == arrow()[j - r1.len()]);
        } else {
            assert(t[j] == r2[j - r1.len() - 5]);
        }
    }
}

/// No blank line starts inside a chunk, whatever follows it.
proof fn lemma_chunk_no_blank(s: SubView, rest: Seq<char>, j: int)
    requires
        text_ok(s.3),
        0 <= j < chunk(s).len(),
    ensures
        !occurs_at(chunk(s) + rest, blank_line(), j),
{
    let c = chunk(s);
    let sq = c + rest;
    let id = format_int(s.0 as int, 0);
    let tl = time_line(s);
    let text = s.3;
    lemma_format_int_shape(s.0 as int, 0);
    lemma_time_line_shape(s);
    lemma_trimmed_ends(text);
    let a = id.len() as int;
    let b = a + 2 + tl.len();
    let l = c.len() as int;
    assert(c.last() == text.last());
    if occurs_at(sq, blank_line(), j) {
        let w = sq.subrange(j, j + 4);
        assert(w == blank_line());
        assert(w[0] == '\r' && w[1] == '\n' && w[2] == '\r' && w[3] == '\n');
        if j + 3 >= l {
            assert(sq[l - 1] == w[l - 1 - j]);
            assert(sq[l - 1] == c.last());
            assert(is_whitespace('\r') && is_whitespace('\n'));
        } else if j < a {
            assert(sq[j] == id[j]);
        } else if j == a {
            assert(sq[a + 2] == tl[0]);
        } else if j == a + 1 {
            assert(sq[j] == '\n');
        } else if j < b {
            assert(sq[j] == tl[j - a - 2]);
        } else if j == b {
            assert(sq[b + 2] == text[0]);
            assert(is_whitespace('\r'));
        } else if j == b + 1 {
            assert(sq[j] == '\n');
        } else {
            let k = j - b - 2;
            assert(text.subrange(k, k + 4) =~= w);
            assert(occurs_at(text, blank_line(), k));
        }
    }
}

/// A chunk reads back as its subtitle.
proof fn lemma_chunk_parse(s: SubView)
    requires
        text_ok(s.3),
    ensures
        subtitle_parse(chunk(s)) == Parsed::Value(s),
{
    let id = format_int(s.0 as int, 0);
    let r1 = render_time(s.1);
    let r2 = render_time(s.2);
    let tl = time_line(s);
    let text = s.3;
    lemma_format_int_shape(s.0 as int, 0);
    lemma_time_line_shape(s);
    lemma_render_time_shape(s.1);
    lemma_render_time_shape(s.2);
    let rest = tl + crlf() + text;
    assert(chunk(s) =~= id + crlf() + rest);
    assert forall|j: int| 0 <= j < id.len() implies !occurs_at(id + crlf() + rest, crlf(), j) by {
        if occurs_at(id + crlf() + rest, crlf(), j) {
            assert((id + crlf() + rest).subrange(j, j + 2)[0] == id[j]);
        }
    }
    lemma_split_inclusive_first(id, crlf(), rest);
    assert forall|j: int| 0 <= j < tl.len() implies !occurs_at(tl + crlf() + text, crlf(), j) by {
        if occurs_at(tl + crlf() + text, crlf(), j) {
            assert((tl + crlf() + text).subrange(j, j + 2)[0] == tl[j]);
        }
    }
    lemma_split_inclusive_first(tl, crlf(), text);
    let lines = split_inclusive(chunk(s), crlf());
    assert(lines =~= seq![id + crlf(), tl + crlf()] + split_inclusive(text, crlf()));
    assert(lines.subrange(2, lines.len() as int) =~= split_inclusive(text, crlf()));
    lemma_concat_split_inclusive(text, crlf());
    lemma_trimmed_ends(text);
    assert(is_whitespace('\r') && is_whitespace('\n'));
    lemma_trim_suffix(id, crlf());
    lemma_trim_suffix(tl, crlf());
    lemma_parse_format_int(s.0, 0);
    assert forall|j: int| 0 <= j < r1.len() implies !occurs_at(r1 + arrow() + r2, arrow(), j) by {
        if occurs_at(r1 + arrow() + r2, arrow(), j) {
            assert((r1 + arrow() + r2).subrange(j, j + 5)[0] == r1[j]);
        }
    }
    lemma_split_first(r1, arrow(), r2);
    assert forall|j: int| !occurs_at(r2, arrow(), j) by {
        if occurs_at(r2, arrow(), j) {
            assert(r2.subrange(j, j + 5)[0] == r2[j]);
        }
    }
    lemma_split_none(r2, arrow());
    assert(split(tl, arrow()) =~= seq![r1, r2]);
    lemma_time_render_parse(s.1);
    lemma_time_render_parse(s.2);
}

proof fn lemma_joined_last(subs: Seq<SubView>)
    requires
        subs.len() >= 2,
    ensures
        joined(subs) == joined(subs.drop_last()) + blank_line() + chunk(subs.last()),
    decreases subs.len(),
{
    let c0 = chunk(subs[0]);
    let cl = chunk(subs.last());
    let b = blank_line();
    if subs.len() > 2 {
        lemma_joined_last(subs.drop_first());
        let x = subs.drop_first().drop_last();
        assert(x =~= subs.drop_last().drop_first());
        assert(subs.drop_last()[0] == subs[0]);
        assert(subs.drop_first().last() == subs.last());
        assert(joined(subs) == c0 + b + joined(subs.drop_first()));
        assert(joined(subs.drop_first()) == joined(x) + b + cl);
        assert(joined(subs.drop_last()) == c0 + b + joined(x));
        assert(c0 + b + (joined(x) + b + cl) =~= (c0 + b + joined(x)) + b + cl);
    } else {
        assert(subs.drop_last().len() == 1);
        assert(subs.drop_first().len() == 1);
        assert(subs.drop_first()[0] == subs.last());
        assert(subs.drop_last()[0] == subs[0]);
        assert(joined(subs.drop_first()) == cl);
        assert(joined(subs.drop_last()) == c0);
    }
}

proof fn lemma_render_blocks_joined(subs: Seq<SubView>)
    requires
        subs.len() >= 1,
    ensures
        render_blocks(subs) == joined(subs) + blank_line(),
    decreases subs.len(),
{
    assert(render_block(subs.last()) =~= chunk(subs.last()) + blank_line());
    if subs.len() == 1 {
        assert(subs.drop_last() =~= Seq::<SubView>::empty());
        assert(render_blocks(Seq::<SubView>::empty()) == Seq::<char>::empty());
        assert(subs.last() == subs[0]);
        assert(render_blocks(subs) == render_blocks(subs.drop_last()) + render_block(subs.last()));
        assert(render_blocks(subs) =~= chunk(subs[0]) + blank_line());
    } else {
        lemma_render_blocks_joined(subs.drop_last());
        lemma_joined_last(subs);
        let a = joined(subs.drop_last());
        assert(render_blocks(subs) == render_blocks(subs.drop_last()) + render_block(subs.last()));
        assert((a + blank_line()) + (chunk(subs.last()) + blank_line()) =~= (a + blank_line()
            + chunk(subs.last())) + blank_line());
    }
}

proof fn lemma_joined_shape(subs: Seq<SubView>)
    requires
        subs.len() >= 1,
        forall|i: int| 0 <= i < subs.len() ==> text_ok(#[trigger] subs[i].3),
    ensures
        joined(subs).len() > 0,
        joined(subs)[0] == chunk(subs[0])[0],
        joined(subs).last() == subs.last().3.last(),
    decreases subs.len(),
{
    lemma_format_int_shape(subs[0].0 as int, 0);
    if subs.len() == 1 {
        assert(chunk(subs[0]).last() == subs[0].3.last());
    } else {
        lemma_joined_shape(subs.drop_first());
        assert(subs.drop_first().last() == subs.last());
        assert(text_ok(subs.drop_first()[0].3));
    }
}

proof fn lemma_split_joined(subs: Seq<SubView>)
    requires
        subs.len() >= 1,
        forall|i: int| 0 <= i < subs.len() ==> text_ok(#[trigger] subs[i].3),
    ensures
        split(joined(subs), blank_line()) == chunks_of(subs),
    decreases subs.len(),
{
    let c = chunk(subs[0]);
    assert(text_ok(subs[0].3));
    if subs.len() == 1 {
        assert forall|j: int| !occurs_at(c, blank_line(), j) by {
            if 0 <= j < c.len() {
                lemma_chunk_no_blank(subs[0], seq![], j);
                assert(c + seq![] =~= c);
            }
        }
        lemma_split_none(c, blank_line());
        assert(chunks_of(subs) =~= seq![c]);
    } else {
        let rest = joined(subs.drop_first());
        assert forall|j: int| 0 <= j < c.len() implies !occurs_at(c + blank_line() + rest, blank_line(), j) by {
            lemma_chunk_no_blank(subs[0], blank_line() + rest, j);
            assert(c + blank_line() + rest =~= c + (blank_line() + rest));
        }
        lemma_split_first(c, blank_line(), rest);
        assert forall|i: int| 0 <= i < subs.drop_first().len() implies text_ok(#[trigger] subs.drop_first()[i].3) by {
            assert(subs.drop_first()[i] == subs[i + 1]);
        }
        lemma_split_joined(subs.drop_first());
        assert(chunks_of(subs) =~= seq![c] + chunks_of(subs.drop_first()));
    }
}

proof fn lemma_blocks_parse_chunks(subs: Seq<SubView>, k: int)
    requires
        0 <= k <= subs.len(),
        forall|i: int| 0 <= i < subs.len() ==> text_ok(#[trigger] subs[i].3),
    ensures
        blocks_parse(chunks_of(subs), k) == Parsed::Value(subs.take(k)),
    decreases k,
{
    if k == 0 {
        assert(subs.take(0) =~= Seq::<SubView>::empty());
    } else {
        lemma_blocks_parse_chunks(subs, k - 1);
        assert(text_ok(subs[k - 1].3));
        assert(chunks_of(subs)[k - 1] == chunk(subs[k - 1]));
        lemma_chunk_parse(subs[k - 1]);
        assert(subs.take(k) =~= subs.take(k - 1).push(subs[k - 1]));
    }
}

proof fn lemma_subs_roundtrip(subs: Seq<SubView>)
    requires
        subs.len() >= 1,
        forall|i: int| 0 <= i < subs.len() ==> text_ok(#[trigger] subs[i].3),
    ensures
        trim(render_blocks(subs)) == joined(subs),
        srt_parse(joined(subs)) == Parsed::Value(subs),
{
    lemma_render_blocks_joined(subs);
    lemma_joined_shape(subs);
    let j = joined(subs);
    lemma_format_int_shape(subs[0].0 as int, 0);
    assert(chunk(subs[0])[0] == format_int(subs[0].0 as int, 0)[0]);
    assert(text_ok(subs.last().3));
    lemma_trimmed_ends(subs.last().3);
    assert forall|i: int| 0 <= i < blank_line().len() implies is_whitespace(#[trigger] blank_line()[i]) by {
        assert(is_whitespace('\r') && is_whitespace('\n'));
    }
    lemma_trim_suffix(j, blank_line());
    lemma_split_joined(subs);
    lemma_blocks_parse_chunks(subs, subs.len() as int);
    assert(subs.take(subs.len() as int) =~= subs);
}

/// Rendering subtitles and reading the result back gives the same
/// subtitles, for a non-empty list whose texts are non-empty, trimmed and
/// free of blank lines: `srt_parser(srt.build())` holds `srt`'s subtitles.
pub proof fn lemma_build_parse_roundtrip(srt: Srt)
    requires
        srt_view(srt).len() >= 1,
        forall|i: int| 0 <= i < srt_view(srt).len() ==> text_ok(#[trigger] srt_view(srt)[i].3),
    ensures
        srt_parse(trim(render_blocks(srt_view(srt)))) == Parsed::Value(srt_view(srt)),
{
    lemma_subs_roundtrip(srt_view(srt));
}

/// A timestamp written `hh:mm:ss,mmm` with exactly these digits.
pub open spec fn is_canonical_time(s: Seq<char>) -> bool {
    &&& s.len() == 12
    &&& is_digit(s[0]) && is_digit(s[1]) && s[2] == ':'
    &&& is_digit(s[3]) && is_digit(s[4]) && s[5] == ':'
    &&& is_digit(s[6]) && is_digit(s[7]) && s[8] == ','
    &&& is_digit(s[9]) && is_digit(s[10]) && is_digit(s[11])
}

/// The timestamp that a canonical `hh:mm:ss,mmm` text denotes.
pub open spec fn time_of(s: Seq<char>) -> SrtTime {
    SrtTime {
        hr: (digit_value(s[0]) * 10 + digit_value(s[1])) as isize,
        min: (digit_value(s[3]) * 10 + digit_value(s[4])) as isize,
        sec: (digit_value(s[6]) * 10 + digit_value(s[7])) as isize,
        ms: (digit_value(s[9]) * 100 + digit_value(s[10]) * 10 + digit_value(s[11])) as isize,
    }
}

proof fn lemma_digit_char(c: char)
    requires
        is_digit(c),
    ensures
        ((digit_value(c) + 0x30) as char) == c,
        0 <= digit_value(c) < 10,
{
}

proof fn lemma_two_digits(a: char, b: char)
    requires
        is_digit(a),
        is_digit(b),
    ensures
        format_int(digit_value(a) * 10 + digit_value(b), 2) == seq![a, b],
{
    lemma_digit_char(a);
    lemma_digit_char(b);
    let x = digit_value(a);
    let y = digit_value(b);
    let n = x * 10 + y;
    assert(n / 10 == x && n % 10 == y) by (nonlinear_arith)
        requires
            n == x * 10 + y,
            0 <= x < 10,
            0 <= y < 10,
    ;
    if x == 0 {
        assert(decimal(n as nat) == seq![((n as nat) + 0x30) as char]);
        assert(zeros(2 - 1) =~= seq!['0']);
        assert(format_int(n, 2) =~= seq![a, b]);
    } else {
        assert(decimal((n / 10) as nat) == seq![a]);
        assert(decimal(n as nat) =~= seq![a, b]);
        assert(zeros(0) =~= Seq::<char>::empty());
        assert(format_int(n, 2) =~= seq![a, b]);
    }
}

proof fn lemma_three_digits(a: char, b: char, c: char)
    requires
        is_digit(a),
        is_digit(b),
        is_digit(c),
    ensures
        format_int(digit_value(a) * 100 + digit_value(b) * 10 + digit_value(c), 3) == seq![a, b, c],
{
    lemma_digit_char(a);
    lemma_digit_char(b);
    lemma_digit_char(c);
    let x = digit_value(a);
    let y = digit_value(b);
    let z = digit_value(c);
    let n = x * 100 + y * 10 + z;
    let m = x * 10 + y;
    assert(n / 10 == m && n % 10 == z && m / 10 == x && m % 10 == y) by (nonlinear_arith)
        requires
            n == x * 100 + y * 10 + z,
            m == x * 10 + y,
            0 <= x < 10,
            0 <= y < 10,
            0 <= z < 10,
    ;
    if x == 0 && y == 0 {
        assert(decimal(n as nat) == seq![((n as nat) + 0x30) as char]);
        assert(zeros(3 - 1) =~= seq!['0', '0']);
        assert(format_int(n, 3) =~= seq![a, b, c]);
    } else if x == 0 {
        assert(decimal(m as nat) == seq![b]);
        assert(decimal(n as nat) =~= seq![b, c]);
        assert(zeros(3 - 2) =~= seq!['0']);
        assert(format_int(n, 3) =~= seq![a, b, c]);
    } else {
        assert(decimal((m / 10) as nat) == seq![a]);
        assert(decimal(m as nat) =~= seq![a, b]);
        assert(decimal(n as nat) =~= seq![a, b, c]);
        assert(zeros(0) =~= Seq::<char>::empty());
        assert(format_int(n, 3) =~= seq![a, b, c]);
    }
}

/// A canonical `hh:mm:ss,mmm` text is read as `time_of` it, and rendering
/// that timestamp gives the text back: `SrtTime::parse(s).unwrap().render() == s`.
pub proof fn lemma_canonical_time_roundtrip(s: Seq<char>)
    requires
        is_canonical_time(s),
    ensures
        render_time(time_of(s)) == s,
        time_parse(s) == Parsed::Value(time_of(s)),
{
    lemma_digit_char(s[0]);
    lemma_digit_char(s[1]);
    lemma_digit_char(s[3]);
    lemma_digit_char(s[4]);
    lemma_digit_char(s[6]);
    lemma_digit_char(s[7]);
    lemma_digit_char(s[9]);
    lemma_digit_char(s[10]);
    lemma_digit_char(s[11]);
    lemma_two_digits(s[0], s[1]);
    lemma_two_digits(s[3], s[4]);
    lemma_two_digits(s[6], s[7]);
    lemma_three_digits(s[9], s[10], s[11]);
    let t = time_of(s);
    assert(t.hr as int == digit_value(s[0]) * 10 + digit_value(s[1]));
    assert(t.min as int == digit_value(s[3]) * 10 + digit_value(s[4]));
    assert(t.sec as int == digit_value(s[6]) * 10 + digit_value(s[7]));
    assert(t.ms as int == digit_value(s[9]) * 100 + digit_value(s[10]) * 10 + digit_value(s[11]));
    assert(render_time(t) =~= s);
    lemma_time_render_parse(t);
}

/// One block of a subtitle text: its number, its start and end timestamps
/// as written, and its text.
pub type BlockText = (isize, Seq<char>, Seq<char>, Seq<char>);

/// `format!("{}\r\n{} --> {}\r\n{}", id, start, end, text)`.
pub open spec fn block_text(b: BlockText) -> Seq<char> {
    format_int(b.0 as int, 0) + crlf() + b.1 + arrow() + b.2 + crlf() + b.3
}

/// The blocks joined by blank lines (`bs.join("\r\n\r\n")`).
pub open spec fn join_blocks(bs: Seq<BlockText>) -> Seq<char>
    decreases bs.len(),
{
    if bs.len() == 0 {
        seq![]
    } else if bs.len() == 1 {
        block_text(bs[0])
    } else {
        block_text(bs[0]) + blank_line() + join_blocks(bs.drop_first())
    }
}

/// A block whose timestamps are canonical and whose text is non-empty,
/// trimmed and free of blank lines.
pub open spec fn block_ok(b: BlockText) -> bool {
    is_canonical_time(b.1) && is_canonical_time(b.2) && text_ok(b.3)
}

/// The subtitle that a block denotes.
pub open spec fn block_sub(b: BlockText) -> SubView {
    (b.0, time_of(b.1), time_of(b.2), b.3)
}

proof fn lemma_join_blocks_joined(bs: Seq<BlockText>)
    requires
        forall|i: int| 0 <= i < bs.len() ==> block_ok(#[trigger] bs[i]),
    ensures
        joined(bs.map_values(|b: BlockText| block_sub(b))) == join_blocks(bs),
    decreases bs.len(),
{
    let subs = bs.map_values(|b: BlockText| block_sub(b));
    if bs.len() > 0 {
        assert(block_ok(bs[0]));
        lemma_canonical_time_roundtrip(bs[0].1);
        lemma_canonical_time_roundtrip(bs[0].2);
        assert(subs[0] == block_sub(bs[0]));
        assert(chunk(subs[0]) =~= block_text(bs[0]));
        if bs.len() > 1 {
            assert forall|i: int| 0 <= i < bs.drop_first().len() implies block_ok(
                #[trigger] bs.drop_first()[i],
            ) by {
                assert(bs.drop_first()[i] == bs[i + 1]);
            }
            lemma_join_blocks_joined(bs.drop_first());
            assert(subs.drop_first() =~= bs.drop_first().map_values(|b: BlockText| block_sub(b)));
        }
    }
}

/// Parsing a canonical subtitle text and building it again gives the same
/// text: for `d = bs.join("\r\n\r\n")` with every block written
/// `{id}\r\n{hh:mm:ss,mmm} --> {hh:mm:ss,mmm}\r\n{text}` and its text
/// non-empty, trimmed and free of blank lines, `srt_parser(d)` reads the
/// blocks' subtitles and `build` renders exactly `d` again.
pub proof fn lemma_parse_build_roundtrip(bs: Seq<BlockText>)
    requires
        bs.len() >= 1,
        forall|i: int| 0 <= i < bs.len() ==> block_ok(#[trigger] bs[i]),
    ensures
        srt_parse(join_blocks(bs)) == Parsed::Value(bs.map_values(|b: BlockText| block_sub(b))),
        trim(render_blocks(bs.map_values(|b: BlockText| block_sub(b)))) == join_blocks(bs),
{
    let subs = bs.map_values(|b: BlockText| block_sub(b));
    assert forall|i: int| 0 <= i < subs.len() implies text_ok(#[trigger] subs[i].3) by {
        assert(block_ok(bs[i]));
    }
    lemma_join_blocks_joined(bs);
    lemma_subs_roundtrip(subs);
}

/// A subtitle file with no blocks builds to the empty text.
pub proof fn lemma_build_empty(srt: Srt)
    requires
        srt.subtitles@.len() == 0,
    ensures
        trim(render_blocks(srt_view(srt))) == Seq::<char>::empty(),
{
    assert(srt_view(srt) =~= Seq::empty());
    assert(trim_start(Seq::<char>::empty()) == Seq::<char>::empty());
    assert(trim_end(Seq::<char>::empty()) == Seq::<char>::empty());
}

} // verus!
