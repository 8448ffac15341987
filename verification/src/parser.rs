//! Turning a morphological analysis of a Korean sentence into the list of
//! dictionary words it contains: particles, endings and punctuation are
//! dropped, derivational suffixes are joined to the preceding word, verbs
//! and adjectives get their dictionary ending `다`, and repeats are removed.

use vstd::prelude::*;
use std::sync::Arc;
use crate::text::{chars_eq, chars_of, string_of, string_views, trim, trim_chars, views};
use crate::text::push_char;

verus! {

#[verifier::external_type_specification]
#[verifier::external_body]
pub struct ExJsonError(serde_json::Error);

/// A morpheme as a pair of (surface form, part-of-speech tag).
pub type Morph = (Seq<char>, Seq<char>);

/// The (form, tag) pairs held by a vector of string pairs.
pub open spec fn morph_views(v: Seq<(String, String)>) -> Seq<Morph> {
    v.map_values(|p: (String, String)| (p.0@, p.1@))
}

/// The morphemes that `serde_json` decodes from `text` as a JSON array of
/// `[form, tag]` string pairs, or `None` when it reports an error.
pub uninterp spec fn json_morphs(text: Seq<char>) -> Option<Seq<Morph>>;

/// The words (each a list of morphemes) that `serde_json` decodes from
/// `text` as a JSON array of arrays of `[form, tag]` string pairs, or `None`
/// when it reports an error.
pub uninterp spec fn json_word_morphs(text: Seq<char>) -> Option<Seq<Seq<Morph>>>;

/// Decodes `serde_json::from_str::<Vec<(String, String)>>`. The contract
/// claims only that the result is `Ok` exactly when `json_morphs` has a
/// value, and then holds those pairs; JSON syntax is not stated here.
#[verifier::external_body]
fn decode_morphs(text: &str) -> (r: Result<Vec<(String, String)>, serde_json::Error>)
    ensures
        r is Ok <==> json_morphs(text@) is Some,
        r matches Ok(v) ==> morph_views(v@) == json_morphs(text@)->0,
{
    serde_json::from_str(text)
}

/// Decodes `serde_json::from_str::<Vec<Vec<(String, String)>>>`. The
/// contract claims only that the result is `Ok` exactly when
/// `json_word_morphs` has a value, and then holds those pairs.
#[verifier::external_body]
fn decode_word_morphs(text: &str) -> (r: Result<Vec<Vec<(String, String)>>, serde_json::Error>)
    ensures
        r is Ok <==> json_word_morphs(text@) is Some,
        r matches Ok(v) ==> v@.map_values(|w: Vec<(String, String)>| morph_views(w@))
            == json_word_morphs(text@)->0,
{
    serde_json::from_str(text)
}

/// Why an analysis could not be turned into words.
#[derive(Debug)]
pub enum AnalysisError {
    /// The analyzer output is not the expected JSON.
    Json(serde_json::Error),
    /// A derivational suffix (`XSV`, `XSA`) comes with no word before it.
    DanglingSuffix,
}

/// A two-letter tag.
pub open spec fn tag2(a: char, b: char) -> Seq<char> {
    seq![a, b]
}

/// A three-letter tag.
pub open spec fn tag3(a: char, b: char, c: char) -> Seq<char> {
    seq![a, b, c]
}

/// Particles, endings and punctuation that are never dictionary words.
pub open spec fn exceptions() -> Seq<Seq<char>> {
    seq![
        tag3('J', 'K', 'S'),
        tag3('J', 'K', 'C'),
        tag3('J', 'K', 'G'),
        tag3('J', 'K', 'O'),
        tag3('J', 'K', 'B'),
        tag3('J', 'K', 'V'),
        tag3('J', 'K', 'Q'),
        tag2('J', 'X'),
        tag2('J', 'C'),
        tag2('S', 'P'),
        tag2('S', 'F'),
        tag2('S', 'E'),
        tag2('S', 'S'),
        tag2('E', 'C'),
        tag2('E', 'P'),
        tag2('E', 'F'),
        tag3('E', 'T', 'M'),
    ]
}

/// Tags that the Komoran pipeline drops.
pub open spec fn komoran_excluded() -> Seq<Seq<char>> {
    seq![tag3('X', 'P', 'N'), tag2('N', 'P'), tag2('V', 'X')] + exceptions()
}

/// Tags that the Khaiii pipeline drops.
pub open spec fn khaiii_excluded() -> Seq<Seq<char>> {
    seq![tag3('N', 'N', 'P'), tag2('N', 'P'), tag2('V', 'X')] + exceptions()
}

/// Tags after which the Komoran pipeline appends `다`.
pub open spec fn komoran_verbs() -> Seq<Seq<char>> {
    seq![tag2('V', 'V'), tag3('X', 'S', 'V'), tag3('X', 'S', 'A'), tag2('V', 'A'), seq!['V']]
}

/// Tags after which the Khaiii pipeline appends `다`.
pub open spec fn khaiii_verbs() -> Seq<Seq<char>> {
    seq![tag2('V', 'V'), tag2('V', 'A'), tag3('X', 'S', 'V'), tag3('X', 'S', 'A')]
}

/// Derivational suffixes, joined to the word before them.
pub open spec fn stems() -> Seq<Seq<char>> {
    seq![tag3('X', 'S', 'V'), tag3('X', 'S', 'A')]
}

/// The dictionary ending `다`.
pub open spec fn da() -> char {
    '\u{b2e4}'
}

/// The verbs `하` and `되` on their own, which are dropped.
pub open spec fn is_banned(m: Morph) -> bool {
    (m.0 == seq!['\u{d558}'] || m.0 == seq!['\u{b418}']) && m.1 == tag2('V', 'V')
}

/// The morphemes of `ms` that are neither banned nor tagged with an excluded tag.
pub open spec fn keep_morphs(ms: Seq<Morph>, excluded: Seq<Seq<char>>) -> Seq<Morph>
    decreases ms.len(),
{
    if ms.len() == 0 {
        seq![]
    } else {
        let rest = keep_morphs(ms.drop_last(), excluded);
        if is_banned(ms.last()) || excluded.contains(ms.last().1) {
            rest
        } else {
            rest.push(ms.last())
        }
    }
}

/// The words built from `ms` in order: a suffix is joined to the word
/// before it, a verb tag appends `다`; `None` when a suffix has no word
/// before it.
pub open spec fn join_morphs(ms: Seq<Morph>, verbs: Seq<Seq<char>>) -> Option<Seq<Seq<char>>>
    decreases ms.len(),
{
    if ms.len() == 0 {
        Some(seq![])
    } else {
        match join_morphs(ms.drop_last(), verbs) {
            None => None,
            Some(out) => {
                let (w, t) = ms.last();
                if stems().contains(t) && out.len() == 0 {
                    None
                } else {
                    let base = if stems().contains(t) {
                        out.last() + w
                    } else {
                        w
                    };
                    let word = if verbs.contains(t) {
                        base.push(da())
                    } else {
                        base
                    };
                    let kept = if stems().contains(t) {
                        out.drop_last()
                    } else {
                        out
                    };
                    Some(kept.push(word))
                }
            },
        }
    }
}

/// `s` with every repeat of an earlier element removed.
pub open spec fn dedup(s: Seq<Seq<char>>) -> Seq<Seq<char>>
    decreases s.len(),
{
    if s.len() == 0 {
        seq![]
    } else {
        let d = dedup(s.drop_last());
        if d.contains(s.last()) {
            d
        } else {
            d.push(s.last())
        }
    }
}

/// The words of a Komoran analysis, before removing repeats.
pub open spec fn komoran_join(ms: Seq<Morph>) -> Option<Seq<Seq<char>>> {
    join_morphs(keep_morphs(ms, komoran_excluded()), komoran_verbs())
}

/// The words of a Khaiii analysis (one list of morphemes per word), each
/// word processed on its own, before removing repeats.
pub open spec fn khaiii_join(ws: Seq<Seq<Morph>>) -> Option<Seq<Seq<char>>>
    decreases ws.len(),
{
    if ws.len() == 0 {
        Some(seq![])
    } else {
        match khaiii_join(ws.drop_last()) {
            None => None,
            Some(acc) => match join_morphs(keep_morphs(ws.last(), khaiii_excluded()), khaiii_verbs()) {
                None => None,
                Some(w) => Some(acc + w),
            },
        }
    }
}

fn tag2_chars(a: char, b: char) -> (v: Vec<char>)
    ensures
        v@ == tag2(a, b),
{
    let v = vec![a, b];
    assert(v@ =~= tag2(a, b));
    v
}

fn tag3_chars(a: char, b: char, c: char) -> (v: Vec<char>)
    ensures
        v@ == tag3(a, b, c),
{
    let v = vec![a, b, c];
    assert(v@ =~= tag3(a, b, c));
    v
}

fn exception_tags() -> (v: Vec<Vec<char>>)
    ensures
        views(v@) == exceptions(),
{
    let v = vec![
        tag3_chars('J', 'K', 'S'),
        tag3_chars('J', 'K', 'C'),
        tag3_chars('J', 'K', 'G'),
        tag3_chars('J', 'K', 'O'),
        tag3_chars('J', 'K', 'B'),
        tag3_chars('J', 'K', 'V'),
        tag3_chars('J', 'K', 'Q'),
        tag2_chars('J', 'X'),
        tag2_chars('J', 'C'),
        tag2_chars('S', 'P'),
        tag2_chars('S', 'F'),
        tag2_chars('S', 'E'),
        tag2_chars('S', 'S'),
        tag2_chars('E', 'C'),
        tag2_chars('E', 'P'),
        tag2_chars('E', 'F'),
        tag3_chars('E', 'T', 'M'),
    ];
    assert(views(v@).len() == exceptions().len());
    assert(views(v@)[0] == exceptions()[0]);
    assert(views(v@)[1] == exceptions()[1]);
    assert(views(v@)[2] == exceptions()[2]);
    assert(views(v@)[3] == exceptions()[3]);
    assert(views(v@)[4] == exceptions()[4]);
    assert(views(v@)[5] == exceptions()[5]);
    assert(views(v@)[6] == exceptions()[6]);
    assert(views(v@)[7] == exceptions()[7]);
    assert(views(v@)[8] == exceptions()[8]);
    assert(views(v@)[9] == exceptions()[9]);
    assert(views(v@)[10] == exceptions()[10]);
    assert(views(v@)[11] == exceptions()[11]);
    assert(views(v@)[12] == exceptions()[12]);
    assert(views(v@)[13] == exceptions()[13]);
    assert(views(v@)[14] == exceptions()[14]);
    assert(views(v@)[15] == exceptions()[15]);
    assert(views(v@)[16] == exceptions()[16]);
    assert(views(v@) =~= exceptions());
    v
}

fn prepend_tags(first: Vec<Vec<char>>, rest: Vec<Vec<char>>) -> (v: Vec<Vec<char>>)
    ensures
        views(v@) == views(first@) + views(rest@),
{
    let mut v = first;
    let mut r = rest;
    let ghost a = views(v@);
    let ghost b = views(r@);
    v.append(&mut r);
    assert(views(v@) =~= a + b);
    v
}

fn komoran_excluded_tags() -> (v: Vec<Vec<char>>)
    ensures
        views(v@) == komoran_excluded(),
{
    let first = vec![tag3_chars('X', 'P', 'N'), tag2_chars('N', 'P'), tag2_chars('V', 'X')];
    assert(views(first@) =~= seq![tag3('X', 'P', 'N'), tag2('N', 'P'), tag2('V', 'X')]);
    prepend_tags(first, exception_tags())
}

fn khaiii_excluded_tags() -> (v: Vec<Vec<char>>)
    ensures
        views(v@) == khaiii_excluded(),
{
    let first = vec![tag3_chars('N', 'N', 'P'), tag2_chars('N', 'P'), tag2_chars('V', 'X')];
    assert(views(first@) =~= seq![tag3('N', 'N', 'P'), tag2('N', 'P'), tag2('V', 'X')]);
    prepend_tags(first, exception_tags())
}

fn komoran_verb_tags() -> (v: Vec<Vec<char>>)
    ensures
        views(v@) == komoran_verbs(),
{
    let v = vec![
        tag2_chars('V', 'V'),
        tag3_chars('X', 'S', 'V'),
        tag3_chars('X', 'S', 'A'),
        tag2_chars('V', 'A'),
        vec!['V'],
    ];
    assert(v@[4]@ =~= seq!['V']);
    assert(views(v@) =~= komoran_verbs());
    v
}

fn khaiii_verb_tags() -> (v: Vec<Vec<char>>)
    ensures
        views(v@) == khaiii_verbs(),
{
    let v = vec![
        tag2_chars('V', 'V'),
        tag2_chars('V', 'A'),
        tag3_chars('X', 'S', 'V'),
        tag3_chars('X', 'S', 'A'),
    ];
    assert(views(v@) =~= khaiii_verbs());
    v
}

fn stem_tags() -> (v: Vec<Vec<char>>)
    ensures
        views(v@) == stems(),
{
    let v = vec![tag3_chars('X', 'S', 'V'), tag3_chars('X', 'S', 'A')];
    assert(views(v@) =~= stems());
    v
}

/// Whether `tag` is one of `tags`.
fn tag_in(tag: &String, tags: &Vec<Vec<char>>) -> (b: bool)
    ensures
        b == views(tags@).contains(tag@),
{
    let t = chars_of(tag.as_str());
    let mut i: usize = 0;
    while i < tags.len()
        invariant
            i <= tags.len(),
            t@ == tag@,
            forall|j: int| 0 <= j < i ==> views(tags@)[j] != tag@,
        decreases tags.len() - i,
    {
        if chars_eq(&tags[i], &t) {
            assert(views(tags@)[i as int] == tag@);
            return true;
        }
        i = i + 1;
    }
    false
}


/// Whether `word` is `하` or `되` tagged `VV`.
pub fn has_ban_morph(word: &(String, String)) -> (b: bool)
    ensures
        b == is_banned((word.0@, word.1@)),
{
    let w = chars_of(word.0.as_str());
    let t = chars_of(word.1.as_str());
    let ha = vec!['\u{d558}'];
    let doe = vec!['\u{b418}'];
    assert(ha@ =~= seq!['\u{d558}']);
    assert(doe@ =~= seq!['\u{b418}']);
    (chars_eq(&w, &ha) || chars_eq(&w, &doe)) && chars_eq(&t, &tag2_chars('V', 'V'))
}

fn pair_clone(p: &(String, String)) -> (r: (String, String))
    ensures
        r.0@ == p.0@,
        r.1@ == p.1@,
{
    (p.0.clone(), p.1.clone())
}

/// The morphemes of `data` that are neither banned nor tagged with one of `excluded`.
fn filter_morphs(data: &Vec<(String, String)>, excluded: &Vec<Vec<char>>) -> (r: Vec<(String, String)>)
    ensures
        morph_views(r@) == keep_morphs(morph_views(data@), views(excluded@)),
{
    let ghost ms = morph_views(data@);
    let mut r: Vec<(String, String)> = Vec::new();
    let mut i: usize = 0;
    while i < data.len()
        invariant
            i <= data.len(),
            ms == morph_views(data@),
            morph_views(r@) == keep_morphs(ms.take(i as int), views(excluded@)),
        decreases data.len() - i,
    {
        assert(ms.take(i + 1).drop_last() =~= ms.take(i as int));
        assert(ms.take(i + 1).last() == ms[i as int]);
        if !has_ban_morph(&data[i]) && !tag_in(&data[i].1, excluded) {
            let ghost before = r@;
            r.push(pair_clone(&data[i]));
            assert(morph_views(r@) =~= morph_views(before).push(ms[i as int]));
        }
        i = i + 1;
    }
    assert(ms.take(data.len() as int) =~= ms);
    r
}

proof fn lemma_join_prefix(ms: Seq<Morph>, verbs: Seq<Seq<char>>, n: int)
    requires
        0 <= n <= ms.len(),
        join_morphs(ms, verbs) is Some,
    ensures
        join_morphs(ms.take(n), verbs) is Some,
    decreases ms.len() - n,
{
    if n < ms.len() {
        assert(ms.take(n + 1).drop_last() =~= ms.take(n));
        lemma_join_prefix(ms, verbs, n + 1);
    } else {
        assert(ms.take(n) =~= ms);
    }
}

/// Builds the words of `data` in order: a suffix tag joins the morpheme to
/// the word before it, a verb tag appends `다`.
fn join_words(data: &Vec<(String, String)>, verbs: &Vec<Vec<char>>) -> (r: Vec<String>)
    requires
        join_morphs(morph_views(data@), views(verbs@)) is Some,
    ensures
        string_views(r@) == join_morphs(morph_views(data@), views(verbs@))->0,
{
    let ghost ms = morph_views(data@);
    let stem_tags = stem_tags();
    let mut output_data: Vec<String> = Vec::new();
    let mut i: usize = 0;
    while i < data.len()
        invariant
            i <= data.len(),
            ms == morph_views(data@),
            views(stem_tags@) == stems(),
            join_morphs(ms, views(verbs@)) is Some,
            join_morphs(ms.take(i as int), views(verbs@)) == Some(string_views(output_data@)),
        decreases data.len() - i,
    {
        proof {
            lemma_join_prefix(ms, views(verbs@), i + 1);
        }
        assert(ms.take(i + 1).drop_last() =~= ms.take(i as int));
        assert(ms.take(i + 1).last() == ms[i as int]);
        let ghost before = string_views(output_data@);
        let mut word = data[i].0.clone();
        let tag = &data[i].1;
        let is_stem = tag_in(tag, &stem_tags);
        if is_stem {
            let mut temp_word: String = output_data.pop().unwrap();
            temp_word.append(word.as_str());
            word = temp_word;
            assert(string_views(output_data@) =~= before.drop_last());
        }
        if tag_in(tag, verbs) {
            push_char(&mut word, '\u{b2e4}');
        }
        let ghost mid = output_data@;
        output_data.push(word);
        assert(string_views(output_data@) =~= string_views(mid).push(word@));
        i = i + 1;
    }
    assert(ms.take(data.len() as int) =~= ms);
    output_data
}

/// The Komoran word builder: suffixes `XSV`/`XSA` join the previous word;
/// `VV`, `XSV`, `XSA`, `VA`, `V` append `다`.
pub fn komoran_word_processor(data: Vec<(String, String)>) -> (r: Vec<String>)
    requires
        join_morphs(morph_views(data@), komoran_verbs()) is Some,
    ensures
        string_views(r@) == join_morphs(morph_views(data@), komoran_verbs())->0,
{
    join_words(&data, &komoran_verb_tags())
}

/// The Khaiii word builder: suffixes `XSV`/`XSA` join the previous word;
/// `VV`, `VA`, `XSV`, `XSA` append `다`.
pub fn khaiii_word_processor(data: Vec<(String, String)>) -> (r: Vec<String>)
    requires
        join_morphs(morph_views(data@), khaiii_verbs()) is Some,
    ensures
        string_views(r@) == join_morphs(morph_views(data@), khaiii_verbs())->0,
{
    join_words(&data, &khaiii_verb_tags())
}

/// Removes every repeat of an earlier word, keeping first occurrences in order.
pub fn remove_dup(list: Vec<String>) -> (r: Vec<String>)
    ensures
        string_views(r@) == dedup(string_views(list@)),
{
    let ghost ls = string_views(list@);
    let mut seen = vstd::hash_set::StringHashSet::new();
    let mut out: Vec<String> = Vec::new();
    let mut i: usize = 0;
    while i < list.len()
        invariant
            i <= list.len(),
            ls == string_views(list@),
            string_views(out@) == dedup(ls.take(i as int)),
            forall|x: Seq<char>| seen@.contains(x) <==> string_views(out@).contains(x),
        decreases list.len() - i,
    {
        assert(ls.take(i + 1).drop_last() =~= ls.take(i as int));
        assert(ls.take(i + 1).last() == ls[i as int]);
        let s = list[i].clone();
        let fresh = seen.insert(list[i].clone());
        if fresh {
            let ghost before = string_views(out@);
            out.push(s);
            assert(string_views(out@) =~= before.push(ls[i as int]));
            assert forall|x: Seq<char>| seen@.contains(x) <==> string_views(out@).contains(x) by {
                if x == ls[i as int] {
                    assert(string_views(out@)[before.len() as int] == x);
                } else {
                    if string_views(out@).contains(x) {
                        let k = choose|k: int|
                            0 <= k < string_views(out@).len() && string_views(out@)[k] == x;
                        assert(before[k] == x);
                        assert(before.contains(x));
                    }
                    if before.contains(x) {
                        let k = choose|k: int| 0 <= k < before.len() && before[k] == x;
                        assert(string_views(out@)[k] == x);
                    }
                }
            }
        }
        i = i + 1;
    }
    assert(ls.take(list.len() as int) =~= ls);
    out
}


proof fn lemma_join_none_persists(ms: Seq<Morph>, verbs: Seq<Seq<char>>, n: int)
    requires
        0 <= n <= ms.len(),
        join_morphs(ms.take(n), verbs) is None,
    ensures
        join_morphs(ms, verbs) is None,
    decreases ms.len() - n,
{
    if n < ms.len() {
        assert(ms.take(n + 1).drop_last() =~= ms.take(n));
        lemma_join_none_persists(ms, verbs, n + 1);
    } else {
        assert(ms.take(n) =~= ms);
    }
}

/// Whether every suffix in `data` has a word before it to join.
fn joinable(data: &Vec<(String, String)>, verbs: &Vec<Vec<char>>) -> (b: bool)
    ensures
        b == join_morphs(morph_views(data@), views(verbs@)) is Some,
{
    let ghost ms = morph_views(data@);
    let stem_tags = stem_tags();
    let mut count: usize = 0;
    let mut i: usize = 0;
    while i < data.len()
        invariant
            i <= data.len(),
            ms == morph_views(data@),
            views(stem_tags@) == stems(),
            count <= i,
            join_morphs(ms.take(i as int), views(verbs@)) matches Some(out) && out.len() == count,
        decreases data.len() - i,
    {
        assert(ms.take(i + 1).drop_last() =~= ms.take(i as int));
        assert(ms.take(i + 1).last() == ms[i as int]);
        if tag_in(&data[i].1, &stem_tags) {
            if count == 0 {
                proof {
                    lemma_join_none_persists(ms, views(verbs@), i + 1);
                }
                return false;
            }
        } else {
            count = count + 1;
        }
        i = i + 1;
    }
    assert(ms.take(data.len() as int) =~= ms);
    true
}

/// The Komoran outcome for an analysis that decodes to `ms`.
pub open spec fn komoran_outcome(decoded: Option<Seq<Morph>>, r: Result<Vec<String>, AnalysisError>) -> bool {
    match decoded {
        None => r matches Err(AnalysisError::Json(_)),
        Some(ms) => match komoran_join(ms) {
            None => r matches Err(AnalysisError::DanglingSuffix),
            Some(ws) => r matches Ok(v) && string_views(v@) == dedup(ws),
        },
    }
}

/// The Khaiii outcome for an analysis that decodes to `ws`.
pub open spec fn khaiii_outcome(
    decoded: Option<Seq<Seq<Morph>>>,
    r: Result<Vec<String>, AnalysisError>,
) -> bool {
    match decoded {
        None => r matches Err(AnalysisError::Json(_)),
        Some(ws) => match khaiii_join(ws) {
            None => r matches Err(AnalysisError::DanglingSuffix),
            Some(words) => r matches Ok(v) && string_views(v@) == dedup(words),
        },
    }
}

/// A morphological analyzer's output turned into dictionary words.
pub trait LanguageParser {
    /// The dictionary words of a sentence, from the analyzer's JSON output
    /// for that sentence.
    fn parse(&self, analysis: &str) -> Result<Vec<String>, AnalysisError>;
}

/// A shared handle on a language parser.
pub struct Parser<T> {
    pub parser: Arc<T>,
}

impl<T: LanguageParser> Parser<T> {
    /// Wraps `parser` for sharing.
    pub fn new(parser: T) -> (r: Self)
        ensures
            *r.parser == parser,
    {
        Parser { parser: Arc::new(parser) }
    }
}

/// The Komoran analyzer (KoNLPy), whose output is a flat list of
/// `[form, tag]` pairs.
pub struct KomoranParser {}

/// The Khaiii analyzer, whose output lists, for each word of the sentence,
/// its `[form, tag]` pairs.
pub struct KhaiiiParser {}

impl KhaiiiParser {
    /// The Khaiii parser.
    pub fn new() -> (r: KhaiiiParser)
        ensures
            r == (KhaiiiParser {}),
    {
        KhaiiiParser {}
    }
}

/// The analyzer output with surrounding whitespace removed.
fn trimmed(analysis: &str) -> (s: String)
    ensures
        s@ == trim(analysis@),
{
    string_of(&trim_chars(&chars_of(analysis)))
}

impl LanguageParser for KomoranParser {
    /// Drops banned verbs and `XPN`, `NP`, `VX` and particle/ending/punctuation
    /// tags, builds the words and removes repeats.
    fn parse(&self, analysis: &str) -> (r: Result<Vec<String>, AnalysisError>)
        ensures
            komoran_outcome(json_morphs(trim(analysis@)), r),
    {
        match komoran_parse(analysis) {
            Ok(words) => Ok(remove_dup(words)),
            Err(e) => Err(e),
        }
    }
}

impl LanguageParser for KhaiiiParser {
    /// For each word: drops `NNP`, `NP`, `VX` and particle/ending/punctuation
    /// tags and banned verbs, builds its words; then removes repeats.
    fn parse(&self, analysis: &str) -> (r: Result<Vec<String>, AnalysisError>)
        ensures
            khaiii_outcome(json_word_morphs(trim(analysis@)), r),
    {
        match khaiii_parse(analysis) {
            Ok(words) => Ok(remove_dup(words)),
            Err(e) => Err(e),
        }
    }
}

/// The outcome of reading an analysis whose words keep their repeats.
pub open spec fn words_outcome(
    decoded_ok: bool,
    words: Option<Seq<Seq<char>>>,
    r: Result<Vec<String>, AnalysisError>,
) -> bool {
    if !decoded_ok {
        r matches Err(AnalysisError::Json(_))
    } else {
        match words {
            None => r matches Err(AnalysisError::DanglingSuffix),
            Some(ws) => r matches Ok(v) && string_views(v@) == ws,
        }
    }
}

/// The words of a Komoran analysis, repeats kept.
pub fn komoran_parse(analysis: &str) -> (r: Result<Vec<String>, AnalysisError>)
    ensures
        words_outcome(
            json_morphs(trim(analysis@)) is Some,
            komoran_join(json_morphs(trim(analysis@))->0),
            r,
        ),
{
    let result_json = trimmed(analysis);
    let result = match decode_morphs(result_json.as_str()) {
        Ok(v) => v,
        Err(e) => {
            return Err(AnalysisError::Json(e));
        },
    };
    let filtered_result = filter_morphs(&result, &komoran_excluded_tags());
    if !joinable(&filtered_result, &komoran_verb_tags()) {
        return Err(AnalysisError::DanglingSuffix);
    }
    Ok(komoran_word_processor(filtered_result))
}

/// The words of a Khaiii analysis, each word processed on its own, repeats kept.
pub fn khaiii_parse(analysis: &str) -> (r: Result<Vec<String>, AnalysisError>)
    ensures
        words_outcome(
            json_word_morphs(trim(analysis@)) is Some,
            khaiii_join(json_word_morphs(trim(analysis@))->0),
            r,
        ),
{
    let result_json = trimmed(analysis);
    let result = match decode_word_morphs(result_json.as_str()) {
        Ok(v) => v,
        Err(e) => {
            return Err(AnalysisError::Json(e));
        },
    };
    let ghost ws = result@.map_values(|w: Vec<(String, String)>| morph_views(w@));
    let excluded = khaiii_excluded_tags();
    let verbs = khaiii_verb_tags();
    let mut words_list: Vec<String> = Vec::new();
    let mut i: usize = 0;
    while i < result.len()
        invariant
            i <= result.len(),
            ws == result@.map_values(|w: Vec<(String, String)>| morph_views(w@)),
            json_word_morphs(trim(analysis@)) is Some,
            ws == json_word_morphs(trim(analysis@))->0,
            views(excluded@) == khaiii_excluded(),
            views(verbs@) == khaiii_verbs(),
            khaiii_join(ws.take(i as int)) == Some(string_views(words_list@)),
        decreases result.len() - i,
    {
        assert(ws.take(i + 1).drop_last() =~= ws.take(i as int));
        assert(ws.take(i + 1).last() == ws[i as int]);
        assert(ws[i as int] == morph_views(result@[i as int]@));
        let word_filtered = filter_morphs(&result[i], &excluded);
        if !joinable(&word_filtered, &verbs) {
            proof {
                lemma_khaiii_none_persists(ws, i + 1);
            }
            return Err(AnalysisError::DanglingSuffix);
        }
        let mut words = khaiii_word_processor(word_filtered);
        let ghost before = string_views(words_list@);
        let ghost added = string_views(words@);
        words_list.append(&mut words);
        assert(string_views(words_list@) =~= before + added);
        i = i + 1;
    }
    assert(ws.take(result.len() as int) =~= ws);
    Ok(words_list)
}

proof fn lemma_khaiii_none_persists(ws: Seq<Seq<Morph>>, n: int)
    requires
        0 <= n <= ws.len(),
        khaiii_join(ws.take(n)) is None,
    ensures
        khaiii_join(ws) is None,
    decreases ws.len() - n,
{
    if n < ws.len() {
        assert(ws.take(n + 1).drop_last() =~= ws.take(n));
        lemma_khaiii_none_persists(ws, n + 1);
    } else {
        assert(ws.take(n) =~= ws);
    }
}

} // verus!
