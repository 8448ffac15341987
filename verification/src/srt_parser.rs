//! SubRip (`.srt`) subtitles: parsing blocks separated by blank lines and
//! rendering them back.

use vstd::prelude::*;
use crate::text::{
    chars_of, format_int, parse_isize, parse_isize_chars, push_int, split, split_chars, split_from,
    split_inclusive, split_inclusive_chars, string_of, trim, trim_chars, views, IntError, occurs_at,
};

verus! {

/// A subtitle file: its blocks in order.
#[derive(Debug)]
pub struct Srt {
    pub subtitles: Vec<Subtitle>,
}

impl Default for Srt {
    /// A file with no blocks.
    fn default() -> (r: Srt)
        ensures
            r.subtitles@.len() == 0,
    {
        Srt { subtitles: Vec::new() }
    }
}

/// One subtitle block: its number, start and end times and its text.
#[derive(Debug)]
pub struct Subtitle {
    pub id: isize,
    pub time_start: SrtTime,
    pub time_end: SrtTime,
    pub text: String,
}

/// A timestamp `hh:mm:ss,mmm`.
#[derive(Debug, Default, Copy, Clone, PartialEq, Eq, Structural)]
pub struct SrtTime {
    pub hr: isize,
    pub min: isize,
    pub sec: isize,
    pub ms: isize,
}

/// What a parse yields on a given input: a value, an integer field that
/// does not read as an `isize`, or a shape that the format does not allow
/// (a missing line or field), on which nothing is returned.
pub enum Parsed<T> {
    Value(T),
    Invalid(IntError),
    Undefined,
}

/// The abstract content of a subtitle block.
pub open spec fn subtitle_view(s: Subtitle) -> (isize, SrtTime, SrtTime, Seq<char>) {
    (s.id, s.time_start, s.time_end, s.text@)
}

/// The blocks of a subtitle file.
pub open spec fn srt_view(srt: Srt) -> Seq<(isize, SrtTime, SrtTime, Seq<char>)> {
    srt.subtitles@.map_values(|s: Subtitle| subtitle_view(s))
}

/// Line terminator `\r\n`.
pub open spec fn crlf() -> Seq<char> {
    seq!['\r', '\n']
}

/// Block separator `\r\n\r\n`.
pub open spec fn blank_line() -> Seq<char> {
    seq!['\r', '\n', '\r', '\n']
}

/// Separator between start and end times.
pub open spec fn arrow() -> Seq<char> {
    seq![' ', '-', '-', '>', ' ']
}

/// `SrtTime::parse`: `hr:min:sec,ms`, reading fields left to right.
pub open spec fn time_parse(t: Seq<char>) -> Parsed<SrtTime> {
    let parts = split(t, seq![':']);
    if parts.len() < 3 {
        Parsed::Undefined
    } else {
        let secs = split(parts[2], seq![',']);
        match parse_isize(parts[0]) {
            Err(e) => Parsed::Invalid(e),
            Ok(hr) => match parse_isize(parts[1]) {
                Err(e) => Parsed::Invalid(e),
                Ok(min) => match parse_isize(secs[0]) {
                    Err(e) => Parsed::Invalid(e),
                    Ok(sec) => if secs.len() < 2 {
                        Parsed::Undefined
                    } else {
                        match parse_isize(secs[1]) {
                            Err(e) => Parsed::Invalid(e),
                            Ok(ms) => Parsed::Value(
                                SrtTime {
                                    hr: hr as isize,
                                    min: min as isize,
                                    sec: sec as isize,
                                    ms: ms as isize,
                                },
                            ),
                        }
                    },
                },
            },
        }
    }
}

/// The concatenation of `s`, in order.
pub open spec fn concat_all(s: Seq<Seq<char>>) -> Seq<char>
    decreases s.len(),
{
    if s.len() == 0 {
        seq![]
    } else {
        concat_all(s.drop_last()) + s.last()
    }
}

/// `Subtitle::parse`: the first line is the number, the second line holds
/// `start --> end`, the remaining lines, joined and trimmed, are the text.
pub open spec fn subtitle_parse(raw: Seq<char>) -> Parsed<(isize, SrtTime, SrtTime, Seq<char>)> {
    let lines = split_inclusive(raw, crlf());
    if lines.len() < 1 {
        Parsed::Undefined
    } else {
        match parse_isize(trim(lines[0])) {
            Err(e) => Parsed::Invalid(e),
            Ok(id) => if lines.len() < 2 {
                Parsed::Undefined
            } else {
                let time = split(trim(lines[1]), arrow());
                match time_parse(time[0]) {
                    Parsed::Undefined => Parsed::Undefined,
                    Parsed::Invalid(e) => Parsed::Invalid(e),
                    Parsed::Value(start) => if time.len() < 2 {
                        Parsed::Undefined
                    } else {
                        match time_parse(time[1]) {
                            Parsed::Undefined => Parsed::Undefined,
                            Parsed::Invalid(e) => Parsed::Invalid(e),
                            Parsed::Value(end) => Parsed::Value(
                                (
                                    id as isize,
                                    start,
                                    end,
                                    trim(concat_all(lines.subrange(2, lines.len() as int))),
                                ),
                            ),
                        }
                    },
                }
            },
        }
    }
}

/// The first `n` blocks of `chunks` parsed in order, stopping at the first
/// block that does not parse.
pub open spec fn blocks_parse(chunks: Seq<Seq<char>>, n: int) -> Parsed<
    Seq<(isize, SrtTime, SrtTime, Seq<char>)>,
>
    decreases n,
{
    if n <= 0 {
        Parsed::Value(seq![])
    } else {
        match blocks_parse(chunks, n - 1) {
            Parsed::Value(acc) => match subtitle_parse(chunks[n - 1]) {
                Parsed::Value(s) => Parsed::Value(acc.push(s)),
                Parsed::Invalid(e) => Parsed::Invalid(e),
                Parsed::Undefined => Parsed::Undefined,
            },
            Parsed::Invalid(e) => Parsed::Invalid(e),
            Parsed::Undefined => Parsed::Undefined,
        }
    }
}

/// `srt_parser`: the blocks between blank lines, each parsed as a subtitle.
pub open spec fn srt_parse(data: Seq<char>) -> Parsed<Seq<(isize, SrtTime, SrtTime, Seq<char>)>> {
    let chunks = split(data, blank_line());
    blocks_parse(chunks, chunks.len() as int)
}

/// `SrtTime::render`: `{:02}:{:02}:{:02},{:03}`.
pub open spec fn render_time(t: SrtTime) -> Seq<char> {
    format_int(t.hr as int, 2) + seq![':'] + format_int(t.min as int, 2) + seq![':'] + format_int(
        t.sec as int,
        2,
    ) + seq![','] + format_int(t.ms as int, 3)
}

/// One rendered block: `{id}\r\n{start} --> {end}\r\n{text}\r\n\r\n`.
pub open spec fn render_block(s: (isize, SrtTime, SrtTime, Seq<char>)) -> Seq<char> {
    format_int(s.0 as int, 0) + crlf() + render_time(s.1) + arrow() + render_time(s.2) + crlf() + s.3
        + blank_line()
}

/// All blocks rendered one after the other.
pub open spec fn render_blocks(s: Seq<(isize, SrtTime, SrtTime, Seq<char>)>) -> Seq<char>
    decreases s.len(),
{
    if s.len() == 0 {
        seq![]
    } else {
        render_blocks(s.drop_last()) + render_block(s.last())
    }
}

proof fn lemma_split_from_nonempty(s: Seq<char>, sep: Seq<char>, start: int, i: int)
    ensures
        split_from(s, sep, start, i).len() >= 1,
    decreases s.len() - i,
{
    if sep.len() == 0 || i < start || i + sep.len() > s.len() {
    } else if occurs_at(s, sep, i) {
        lemma_split_from_nonempty(s, sep, i + sep.len(), i + sep.len());
    } else {
        lemma_split_from_nonempty(s, sep, start, i + 1);
    }
}

fn push_str_chars(out: &mut Vec<char>, add: &Vec<char>)
    ensures
        final(out)@ == old(out)@ + add@,
{
    let ghost start = out@;
    let mut i: usize = 0;
    while i < add.len()
        invariant
            i <= add.len(),
            out@ == start + add@.take(i as int),
        decreases add.len() - i,
    {
        out.push(add[i]);
        assert(add@.take(i + 1) =~= add@.take(i as int).push(add@[i as int]));
        i = i + 1;
    }
    assert(add@.take(add.len() as int) =~= add@);
}

fn crlf_chars() -> (v: Vec<char>)
    ensures
        v@ == crlf(),
{
    let v = vec!['\r', '\n'];
    assert(v@ =~= crlf());
    v
}

fn arrow_chars() -> (v: Vec<char>)
    ensures
        v@ == arrow(),
{
    let v = vec![' ', '-', '-', '>', ' '];
    assert(v@ =~= arrow());
    v
}

impl SrtTime {
    /// A timestamp from its four fields.
    pub fn new(hr: isize, min: isize, sec: isize, ms: isize) -> (t: SrtTime)
        ensures
            t == (SrtTime { hr, min, sec, ms }),
    {
        SrtTime { hr, min, sec, ms }
    }

    fn parse_chars(time: &Vec<char>) -> (r: Result<SrtTime, IntError>)
        requires
            !(time_parse(time@) is Undefined),
        ensures
            match r {
                Ok(t) => time_parse(time@) == Parsed::Value(t),
                Err(e) => time_parse(time@) == Parsed::<SrtTime>::Invalid(e),
            },
    {
        let colon = vec![':'];
        let comma = vec![','];
        assert(colon@ =~= seq![':']);
        assert(comma@ =~= seq![',']);
        let time_raw = split_chars(time, &colon);
        assert(views(time_raw@)[2] == time_raw@[2]@);
        let time_sec_raw = split_chars(&time_raw[2], &comma);
        proof {
            lemma_split_from_nonempty(time_raw@[2]@, seq![','], 0, 0);
        }
        assert(views(time_raw@)[0] == time_raw@[0]@);
        assert(views(time_raw@)[1] == time_raw@[1]@);
        assert(views(time_sec_raw@)[0] == time_sec_raw@[0]@);
        let hr = match parse_isize_chars(&time_raw[0]) {
            Ok(n) => n,
            Err(e) => {
                return Err(e);
            },
        };
        let min = match parse_isize_chars(&time_raw[1]) {
            Ok(n) => n,
            Err(e) => {
                return Err(e);
            },
        };
        let sec = match parse_isize_chars(&time_sec_raw[0]) {
            Ok(n) => n,
            Err(e) => {
                return Err(e);
            },
        };
        assert(views(time_sec_raw@)[1] == time_sec_raw@[1]@);
        let ms = match parse_isize_chars(&time_sec_raw[1]) {
            Ok(n) => n,
            Err(e) => {
                return Err(e);
            },
        };
        Ok(SrtTime { hr, min, sec, ms })
    }

    /// Reads `hr:min:sec,ms`; the fields are `isize` numbers.
    pub fn parse(time: &str) -> (r: Result<SrtTime, IntError>)
        requires
            !(time_parse(time@) is Undefined),
        ensures
            match r {
                Ok(t) => time_parse(time@) == Parsed::Value(t),
                Err(e) => time_parse(time@) == Parsed::<SrtTime>::Invalid(e),
            },
    {
        let v = chars_of(time);
        SrtTime::parse_chars(&v)
    }

    fn push_rendered(self, out: &mut Vec<char>)
        ensures
            final(out)@ == old(out)@ + render_time(self),
    {
        let ghost start = out@;
        push_int(out, self.hr, 2);
        out.push(':');
        push_int(out, self.min, 2);
        out.push(':');
        push_int(out, self.sec, 2);
        out.push(',');
        push_int(out, self.ms, 3);
        assert(out@ =~= start + render_time(self));
    }

    /// `hh:mm:ss,mmm`, each field zero-padded after its sign.
    pub fn render(self) -> (s: String)
        ensures
            s@ == render_time(self),
    {
        let mut out: Vec<char> = Vec::new();
        self.push_rendered(&mut out);
        assert(out@ =~= render_time(self));
        string_of(&out)
    }
}


fn time_in_domain_chars(time: &Vec<char>) -> (b: bool)
    ensures
        b == !(time_parse(time@) is Undefined),
{
    let colon = vec![':'];
    let comma = vec![','];
    assert(colon@ =~= seq![':']);
    assert(comma@ =~= seq![',']);
    let time_raw = split_chars(time, &colon);
    if time_raw.len() < 3 {
        return false;
    }
    assert(views(time_raw@)[2] == time_raw@[2]@);
    let time_sec_raw = split_chars(&time_raw[2], &comma);
    proof {
        lemma_split_from_nonempty(time_raw@[2]@, seq![','], 0, 0);
    }
    assert(views(time_raw@)[0] == time_raw@[0]@);
    assert(views(time_raw@)[1] == time_raw@[1]@);
    assert(views(time_sec_raw@)[0] == time_sec_raw@[0]@);
    if let Err(_) = parse_isize_chars(&time_raw[0]) {
        return true;
    }
    if let Err(_) = parse_isize_chars(&time_raw[1]) {
        return true;
    }
    if let Err(_) = parse_isize_chars(&time_sec_raw[0]) {
        return true;
    }
    time_sec_raw.len() >= 2
}

/// Whether `SrtTime::parse` is defined on `time`: it has the `hr:min:sec,ms`
/// shape, or a field before a missing one already fails to read.
pub fn time_in_domain(time: &str) -> (b: bool)
    ensures
        b == !(time_parse(time@) is Undefined),
{
    time_in_domain_chars(&chars_of(time))
}

fn concat_lines(lines: &Vec<Vec<char>>, from: usize) -> (r: Vec<char>)
    requires
        from <= lines.len(),
    ensures
        r@ == concat_all(views(lines@).subrange(from as int, lines.len() as int)),
{
    let mut r: Vec<char> = Vec::new();
    let mut i = from;
    assert(views(lines@).subrange(from as int, from as int) =~= Seq::<Seq<char>>::empty());
    while i < lines.len()
        invariant
            from <= i <= lines.len(),
            r@ == concat_all(views(lines@).subrange(from as int, i as int)),
        decreases lines.len() - i,
    {
        push_str_chars(&mut r, &lines[i]);
        assert(views(lines@).subrange(from as int, i + 1).drop_last() =~= views(lines@).subrange(
            from as int,
            i as int,
        ));
        i = i + 1;
    }
    r
}

impl Subtitle {
    fn parse_chars(raw: &Vec<char>) -> (r: Result<Subtitle, IntError>)
        requires
            !(subtitle_parse(raw@) is Undefined),
        ensures
            match r {
                Ok(s) => subtitle_parse(raw@) == Parsed::Value(subtitle_view(s)),
                Err(e) => subtitle_parse(raw@) == Parsed::<
                    (isize, SrtTime, SrtTime, Seq<char>),
                >::Invalid(e),
            },
    {
        let subtitle = split_inclusive_chars(raw, &crlf_chars());
        assert(views(subtitle@)[0] == subtitle@[0]@);
        let id = match parse_isize_chars(&trim_chars(&subtitle[0])) {
            Ok(n) => n,
            Err(e) => {
                return Err(e);
            },
        };
        assert(views(subtitle@)[1] == subtitle@[1]@);
        let time_line = trim_chars(&subtitle[1]);
        let time = split_chars(&time_line, &arrow_chars());
        proof {
            lemma_split_from_nonempty(time_line@, arrow(), 0, 0);
        }
        assert(views(time@)[0] == time@[0]@);
        let time_start = match SrtTime::parse_chars(&time[0]) {
            Ok(t) => t,
            Err(e) => {
                return Err(e);
            },
        };
        assert(views(time@)[1] == time@[1]@);
        let time_end = match SrtTime::parse_chars(&time[1]) {
            Ok(t) => t,
            Err(e) => {
                return Err(e);
            },
        };
        let texts = concat_lines(&subtitle, 2);
        let text = string_of(&trim_chars(&texts));
        Ok(Subtitle { id, time_start, time_end, text })
    }

    /// Reads one block: its number, `start --> end`, then the text lines.
    pub fn parse(subtitle_raw: String) -> (r: Result<Subtitle, IntError>)
        requires
            !(subtitle_parse(subtitle_raw@) is Undefined),
        ensures
            match r {
                Ok(s) => subtitle_parse(subtitle_raw@) == Parsed::Value(subtitle_view(s)),
                Err(e) => subtitle_parse(subtitle_raw@) == Parsed::<
                    (isize, SrtTime, SrtTime, Seq<char>),
                >::Invalid(e),
            },
    {
        let raw = chars_of(subtitle_raw.as_str());
        Subtitle::parse_chars(&raw)
    }
}

fn subtitle_in_domain_chars(raw: &Vec<char>) -> (b: bool)
    ensures
        b == !(subtitle_parse(raw@) is Undefined),
{
    let subtitle = split_inclusive_chars(raw, &crlf_chars());
    if subtitle.len() < 1 {
        return false;
    }
    assert(views(subtitle@)[0] == subtitle@[0]@);
    if let Err(_) = parse_isize_chars(&trim_chars(&subtitle[0])) {
        return true;
    }
    if subtitle.len() < 2 {
        return false;
    }
    assert(views(subtitle@)[1] == subtitle@[1]@);
    let time_line = trim_chars(&subtitle[1]);
    let time = split_chars(&time_line, &arrow_chars());
    proof {
        lemma_split_from_nonempty(time_line@, arrow(), 0, 0);
    }
    assert(views(time@)[0] == time@[0]@);
    if !time_in_domain_chars(&time[0]) {
        return false;
    }
    if let Err(_) = SrtTime::parse_chars(&time[0]) {
        return true;
    }
    if time.len() < 2 {
        return false;
    }
    assert(views(time@)[1] == time@[1]@);
    time_in_domain_chars(&time[1])
}

/// Whether `Subtitle::parse` is defined on `raw`: the block has its number
/// line and a `start --> end` line of two timestamps in the domain of
/// `SrtTime::parse`, or a field before a missing one already fails to read.
pub fn subtitle_in_domain(raw: &str) -> (b: bool)
    ensures
        b == !(subtitle_parse(raw@) is Undefined),
{
    subtitle_in_domain_chars(&chars_of(raw))
}

proof fn lemma_blocks_parse_stuck(chunks: Seq<Seq<char>>, n: int, m: int)
    requires
        0 <= n <= m,
    ensures
        !(blocks_parse(chunks, n) is Value) ==> blocks_parse(chunks, m) == blocks_parse(chunks, n),
    decreases m - n,
{
    if n < m {
        lemma_blocks_parse_stuck(chunks, n, m - 1);
    }
}

/// Reads a whole subtitle file: blocks separated by `\r\n\r\n`, each read
/// with `Subtitle::parse`; the first block that fails gives the error.
pub fn srt_parser(data: String) -> (r: Result<Srt, IntError>)
    requires
        !(srt_parse(data@) is Undefined),
    ensures
        match r {
            Ok(srt) => srt_parse(data@) == Parsed::Value(srt_view(srt)),
            Err(e) => srt_parse(data@) == Parsed::<Seq<(isize, SrtTime, SrtTime, Seq<char>)>>::Invalid(
                e,
            ),
        },
{
    let raw = chars_of(data.as_str());
    let sep = vec!['\r', '\n', '\r', '\n'];
    assert(sep@ =~= blank_line());
    let subtitles_raw = split_chars(&raw, &sep);
    let ghost chunks = views(subtitles_raw@);
    let mut subtitles: Vec<Subtitle> = Vec::new();
    assert(subtitles@.map_values(|s: Subtitle| subtitle_view(s)) =~= Seq::<
        (isize, SrtTime, SrtTime, Seq<char>),
    >::empty());
    let mut i: usize = 0;
    while i < subtitles_raw.len()
        invariant
            i <= subtitles_raw.len(),
            chunks == views(subtitles_raw@),
            chunks == split(data@, blank_line()),
            !(blocks_parse(chunks, chunks.len() as int) is Undefined),
            blocks_parse(chunks, i as int) == Parsed::Value(
                subtitles@.map_values(|s: Subtitle| subtitle_view(s)),
            ),
        decreases subtitles_raw.len() - i,
    {
        proof {
            lemma_blocks_parse_stuck(chunks, i + 1, chunks.len() as int);
        }
        assert(chunks[i as int] == subtitles_raw@[i as int]@);
        let subtitle = match Subtitle::parse_chars(&subtitles_raw[i]) {
            Ok(s) => s,
            Err(e) => {
                return Err(e);
            },
        };
        let ghost before = subtitles@;
        subtitles.push(subtitle);
        assert(subtitles@.map_values(|s: Subtitle| subtitle_view(s)) =~= before.map_values(
            |s: Subtitle| subtitle_view(s),
        ).push(subtitle_view(subtitle)));
        i = i + 1;
    }
    Ok(Srt { subtitles })
}

/// Whether `srt_parser` is defined on `data`: every block up to the first
/// one that fails to read lies in the domain of `Subtitle::parse`.
pub fn srt_in_domain(data: &str) -> (b: bool)
    ensures
        b == !(srt_parse(data@) is Undefined),
{
    let raw = chars_of(data);
    let sep = vec!['\r', '\n', '\r', '\n'];
    assert(sep@ =~= blank_line());
    let subtitles_raw = split_chars(&raw, &sep);
    let ghost chunks = views(subtitles_raw@);
    let mut i: usize = 0;
    while i < subtitles_raw.len()
        invariant
            i <= subtitles_raw.len(),
            chunks == views(subtitles_raw@),
            chunks == split(data@, blank_line()),
            blocks_parse(chunks, i as int) is Value,
        decreases subtitles_raw.len() - i,
    {
        proof {
            lemma_blocks_parse_stuck(chunks, i + 1, chunks.len() as int);
        }
        assert(chunks[i as int] == subtitles_raw@[i as int]@);
        if !subtitle_in_domain_chars(&subtitles_raw[i]) {
            return false;
        }
        if let Err(_) = Subtitle::parse_chars(&subtitles_raw[i]) {
            return true;
        }
        i = i + 1;
    }
    true
}

fn push_block(output: &mut Vec<char>, subtitle: &Subtitle)
    ensures
        final(output)@ == old(output)@ + render_block(subtitle_view(*subtitle)),
{
    let ghost before = output@;
    push_int(output, subtitle.id, 0);
    output.push('\r');
    output.push('\n');
    subtitle.time_start.push_rendered(output);
    push_str_chars(output, &arrow_chars());
    subtitle.time_end.push_rendered(output);
    output.push('\r');
    output.push('\n');
    push_str_chars(output, &chars_of(subtitle.text.as_str()));
    output.push('\r');
    output.push('\n');
    output.push('\r');
    output.push('\n');
    assert(output@ =~= before + render_block(subtitle_view(*subtitle)));
}

impl Srt {
    /// All blocks rendered in order, with surrounding whitespace trimmed.
    pub fn build(self) -> (s: String)
        ensures
            s@ == trim(render_blocks(srt_view(self))),
    {
        let mut output: Vec<char> = Vec::new();
        let mut i: usize = 0;
        let ghost all = srt_view(self);
        while i < self.subtitles.len()
            invariant
                i <= self.subtitles.len(),
                all == srt_view(self),
                output@ == render_blocks(all.take(i as int)),
            decreases self.subtitles.len() - i,
        {
            let subtitle = &self.subtitles[i];
            let ghost before = output@;
            push_block(&mut output, subtitle);
            assert(all[i as int] == subtitle_view(*subtitle));
            assert(all.take(i + 1).drop_last() =~= all.take(i as int));
            i = i + 1;
        }
        assert(all.take(self.subtitles.len() as int) =~= all);
        string_of(&trim_chars(&output))
    }
}

} // verus!
