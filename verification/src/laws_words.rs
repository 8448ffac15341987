//! Properties of the word pipeline: what repeat removal keeps, what the
//! morpheme filter drops, and how many words the word builder makes.

use vstd::prelude::*;
use crate::parser::{
    dedup, is_banned, join_morphs, keep_morphs, khaiii_excluded, khaiii_join, khaiii_outcome,
    khaiii_verbs, komoran_excluded, komoran_join, komoran_outcome, komoran_verbs, stems, da, tag2,
    tag3, Morph, AnalysisError,
};
use crate::text::string_views;

verus! {

/// After removing repeats no word occurs twice.
pub proof fn lemma_dedup_no_repeats(s: Seq<Seq<char>>)
    ensures
        forall|i: int, j: int|
            0 <= i < j < dedup(s).len() ==> dedup(s)[i] != dedup(s)[j],
    decreases s.len(),
{
    if s.len() > 0 {
        lemma_dedup_no_repeats(s.drop_last());
        let d = dedup(s.drop_last());
        if !d.contains(s.last()) {
            assert forall|i: int, j: int| 0 <= i < j < dedup(s).len() implies dedup(s)[i] != dedup(s)[j] by {
                if j == d.len() {
                    assert(dedup(s)[i] == d[i]);
                    if d[i] == s.last() {
                        assert(d.contains(s.last()));
                    }
                } else {
                    assert(dedup(s)[i] == d[i]);
                    assert(dedup(s)[j] == d[j]);
                }
            }
        }
    }
}

/// Removing repeats keeps exactly the words that occur: every word of `s`
/// is kept, and nothing else appears.
pub proof fn lemma_dedup_same_words(s: Seq<Seq<char>>)
    ensures
        forall|w: Seq<char>| dedup(s).contains(w) <==> s.contains(w),
    decreases s.len(),
{
    if s.len() > 0 {
        let p = s.drop_last();
        lemma_dedup_same_words(p);
        let d = dedup(p);
        assert forall|w: Seq<char>| dedup(s).contains(w) <==> s.contains(w) by {
            if s.contains(w) {
                let k = choose|k: int| 0 <= k < s.len() && s[k] == w;
                if k < p.len() {
                    assert(p[k] == w);
                    assert(p.contains(w));
                    assert(d.contains(w));
                    if !d.contains(s.last()) {
                        let m = choose|m: int| 0 <= m < d.len() && d[m] == w;
                        assert(dedup(s)[m] == w);
                    }
                } else {
                    assert(s.last() == w);
                    if !d.contains(s.last()) {
                        assert(dedup(s)[d.len() as int] == w);
                    }
                }
            }
            if dedup(s).contains(w) {
                let m = choose|m: int| 0 <= m < dedup(s).len() && dedup(s)[m] == w;
                if m < d.len() {
                    assert(d[m] == w);
                    assert(d.contains(w));
                    assert(p.contains(w));
                    let k = choose|k: int| 0 <= k < p.len() && p[k] == w;
                    assert(s[k] == p[k]);
                } else {
                    assert(s[s.len() - 1] == w);
                }
            }
        }
    }
}

/// Removing repeats from a list without repeats changes nothing, so doing
/// it twice is doing it once.
pub proof fn lemma_dedup_idempotent(s: Seq<Seq<char>>)
    ensures
        dedup(dedup(s)) == dedup(s),
{
    lemma_dedup_no_repeats(s);
    lemma_dedup_of_distinct(dedup(s));
}

proof fn lemma_dedup_of_distinct(s: Seq<Seq<char>>)
    requires
        forall|i: int, j: int| 0 <= i < j < s.len() ==> s[i] != s[j],
    ensures
        dedup(s) == s,
    decreases s.len(),
{
    if s.len() > 0 {
        let p = s.drop_last();
        lemma_dedup_of_distinct(p);
        assert(!p.contains(s.last())) by {
            if p.contains(s.last()) {
                let k = choose|k: int| 0 <= k < p.len() && p[k] == s.last();
                assert(s[k] == s[s.len() - 1]);
            }
        }
        assert(p.push(s.last()) =~= s);
    }
}

/// The filter keeps, in order, exactly the morphemes that are neither
/// banned nor tagged with an excluded tag.
pub proof fn lemma_keep_morphs_sound(ms: Seq<Morph>, excluded: Seq<Seq<char>>)
    ensures
        forall|i: int|
            0 <= i < keep_morphs(ms, excluded).len() ==> !is_banned(#[trigger] keep_morphs(ms, excluded)[i])
                && !excluded.contains(keep_morphs(ms, excluded)[i].1),
        keep_morphs(ms, excluded).len() <= ms.len(),
    decreases ms.len(),
{
    if ms.len() > 0 {
        lemma_keep_morphs_sound(ms.drop_last(), excluded);
        let r = keep_morphs(ms.drop_last(), excluded);
        assert forall|i: int| 0 <= i < keep_morphs(ms, excluded).len() implies !is_banned(
            #[trigger] keep_morphs(ms, excluded)[i],
        ) && !excluded.contains(keep_morphs(ms, excluded)[i].1) by {
            if i < r.len() {
                assert(keep_morphs(ms, excluded)[i] == r[i]);
            }
        }
    }
}

/// The number of morphemes that are not derivational suffixes.
pub open spec fn count_non_suffix(ms: Seq<Morph>) -> int
    decreases ms.len(),
{
    if ms.len() == 0 {
        0
    } else {
        count_non_suffix(ms.drop_last()) + if stems().contains(ms.last().1) {
            0int
        } else {
            1int
        }
    }
}

/// The word builder makes one word per morpheme that is not a suffix, and
/// every word it makes from a verb-tagged last morpheme ends in `다`.
pub proof fn lemma_join_counts(ms: Seq<Morph>, verbs: Seq<Seq<char>>)
    requires
        join_morphs(ms, verbs) is Some,
    ensures
        join_morphs(ms, verbs)->0.len() == count_non_suffix(ms),
        ms.len() > 0 && verbs.contains(ms.last().1) ==> join_morphs(ms, verbs)->0.last().last() == da(),
    decreases ms.len(),
{
    if ms.len() > 0 {
        lemma_join_counts(ms.drop_last(), verbs);
    }
}


/// The words that either analyzer pipeline answers hold no repeats.
pub proof fn lemma_parser_words_distinct(
    komoran: Option<Seq<Morph>>,
    r1: Result<Vec<String>, AnalysisError>,
    khaiii: Option<Seq<Seq<Morph>>>,
    r2: Result<Vec<String>, AnalysisError>,
)
    requires
        komoran_outcome(komoran, r1),
        khaiii_outcome(khaiii, r2),
    ensures
        r1 matches Ok(v) ==> forall|i: int, j: int|
            0 <= i < j < v@.len() ==> string_views(v@)[i] != string_views(v@)[j],
        r2 matches Ok(v) ==> forall|i: int, j: int|
            0 <= i < j < v@.len() ==> string_views(v@)[i] != string_views(v@)[j],
{
    if let Ok(v) = r1 {
        lemma_dedup_no_repeats(crate::parser::komoran_join(komoran->0)->0);
    }
    if let Ok(v) = r2 {
        lemma_dedup_no_repeats(crate::parser::khaiii_join(khaiii->0)->0);
    }
}


proof fn lemma_verb_tags_agree(t: Seq<char>)
    requires
        t != seq!['V'],
    ensures
        komoran_verbs().contains(t) == khaiii_verbs().contains(t),
{
    let k = komoran_verbs();
    let h = khaiii_verbs();
    if k.contains(t) {
        let i = choose|i: int| 0 <= i < k.len() && k[i] == t;
        if i == 0 {
            assert(h[0] == t);
        } else if i == 1 {
            assert(h[2] == t);
        } else if i == 2 {
            assert(h[3] == t);
        } else if i == 3 {
            assert(h[1] == t);
        } else {
            assert(k[4] =~= seq!['V']);
        }
    }
    if h.contains(t) {
        let i = choose|i: int| 0 <= i < h.len() && h[i] == t;
        if i == 0 {
            assert(k[0] == t);
        } else if i == 1 {
            assert(k[3] == t);
        } else if i == 2 {
            assert(k[1] == t);
        } else {
            assert(k[2] == t);
        }
    }
}

/// The Komoran and Khaiii word builders agree on every list of morphemes
/// with no `V` tag: both fail (a suffix with no word before it), or both
/// give the same words.
pub proof fn lemma_word_builders_agree(ms: Seq<Morph>)
    requires
        forall|i: int| 0 <= i < ms.len() ==> (#[trigger] ms[i]).1 != seq!['V'],
    ensures
        join_morphs(ms, komoran_verbs()) == join_morphs(ms, khaiii_verbs()),
    decreases ms.len(),
{
    if ms.len() > 0 {
        assert forall|i: int| 0 <= i < ms.drop_last().len() implies (#[trigger] ms.drop_last()[i]).1
            != seq!['V'] by {
            assert(ms.drop_last()[i] == ms[i]);
        }
        lemma_word_builders_agree(ms.drop_last());
        assert(ms.last() == ms[ms.len() - 1]);
        lemma_verb_tags_agree(ms.last().1);
    }
}

/// The filter is complete as well as sound: it keeps, in order, every
/// morpheme that is neither banned nor tagged with an excluded tag, and only
/// those.
pub proof fn lemma_keep_morphs_is_filter(ms: Seq<Morph>, excluded: Seq<Seq<char>>)
    ensures
        keep_morphs(ms, excluded) == ms.filter(|m: Morph| !is_banned(m) && !excluded.contains(m.1)),
        forall|i: int|
            0 <= i < ms.len() && !is_banned(#[trigger] ms[i]) && !excluded.contains(ms[i].1)
                ==> keep_morphs(ms, excluded).contains(ms[i]),
    decreases ms.len(),
{
    reveal(Seq::filter);
    if ms.len() > 0 {
        lemma_keep_morphs_is_filter(ms.drop_last(), excluded);
    }
    let pred = |m: Morph| !is_banned(m) && !excluded.contains(m.1);
    assert forall|i: int|
        0 <= i < ms.len() && !is_banned(#[trigger] ms[i]) && !excluded.contains(ms[i].1)
            implies keep_morphs(ms, excluded).contains(ms[i]) by {
        ms.lemma_filter_contains(pred, i);
    }
}

/// The words of a Komoran analysis are the words built from its kept
/// morphemes; when they can be built there is one per kept morpheme that is
/// not a derivational suffix.
pub proof fn lemma_komoran_words(ms: Seq<Morph>)
    ensures
        komoran_join(ms) == join_morphs(
            ms.filter(|m: Morph| !is_banned(m) && !komoran_excluded().contains(m.1)),
            komoran_verbs(),
        ),
        komoran_join(ms) is Some ==> komoran_join(ms)->0.len() == count_non_suffix(
            ms.filter(|m: Morph| !is_banned(m) && !komoran_excluded().contains(m.1)),
        ),
{
    lemma_keep_morphs_is_filter(ms, komoran_excluded());
    if komoran_join(ms) is Some {
        lemma_join_counts(keep_morphs(ms, komoran_excluded()), komoran_verbs());
    }
}

/// The number of kept, non-suffix morphemes over all the words of a Khaiii
/// analysis.
pub open spec fn khaiii_kept_count(ws: Seq<Seq<Morph>>) -> int
    decreases ws.len(),
{
    if ws.len() == 0 {
        0
    } else {
        khaiii_kept_count(ws.drop_last()) + count_non_suffix(
            ws.last().filter(|m: Morph| !is_banned(m) && !khaiii_excluded().contains(m.1)),
        )
    }
}

/// A Khaiii analysis is read word by word: the words of one more word are
/// those of the earlier words followed by the words built from that word's
/// kept morphemes (each morpheme that is neither banned nor excluded is
/// kept on its own, whatever the other morphemes of its word are).
pub proof fn lemma_khaiii_word_by_word(ws: Seq<Seq<Morph>>, w: Seq<Morph>)
    ensures
        khaiii_join(ws.push(w)) == match khaiii_join(ws) {
            None => None,
            Some(acc) => match join_morphs(
                w.filter(|m: Morph| !is_banned(m) && !khaiii_excluded().contains(m.1)),
                khaiii_verbs(),
            ) {
                None => None,
                Some(more) => Some(acc + more),
            },
        },
{
    assert(ws.push(w).drop_last() =~= ws);
    lemma_keep_morphs_is_filter(w, khaiii_excluded());
}

/// When the words of a Khaiii analysis can be built, there is one per kept
/// morpheme that is not a derivational suffix, over all its words.
pub proof fn lemma_khaiii_counts(ws: Seq<Seq<Morph>>)
    requires
        khaiii_join(ws) is Some,
    ensures
        khaiii_join(ws)->0.len() == khaiii_kept_count(ws),
    decreases ws.len(),
{
    if ws.len() > 0 {
        lemma_khaiii_word_by_word(ws.drop_last(), ws.last());
        assert(ws.drop_last().push(ws.last()) =~= ws);
        lemma_khaiii_counts(ws.drop_last());
        lemma_keep_morphs_is_filter(ws.last(), khaiii_excluded());
        lemma_join_counts(keep_morphs(ws.last(), khaiii_excluded()), khaiii_verbs());
    }
}

proof fn lemma_excluded_agree(t: Seq<char>)
    requires
        t != tag3('N', 'N', 'P'),
        t != tag3('X', 'P', 'N'),
    ensures
        komoran_excluded().contains(t) == khaiii_excluded().contains(t),
{
    let k = komoran_excluded();
    let h = khaiii_excluded();
    assert(k.len() == h.len());
    assert forall|i: int| 1 <= i < k.len() implies k[i] == h[i] by {}
    if k.contains(t) {
        let i = choose|i: int| 0 <= i < k.len() && k[i] == t;
        assert(i != 0);
        assert(h[i] == t);
    }
    if h.contains(t) {
        let i = choose|i: int| 0 <= i < h.len() && h[i] == t;
        assert(i != 0);
        assert(k[i] == t);
    }
}

proof fn lemma_keep_agree(ms: Seq<Morph>)
    requires
        forall|i: int|
            0 <= i < ms.len() ==> (#[trigger] ms[i]).1 != tag3('N', 'N', 'P') && ms[i].1 != tag3(
                'X',
                'P',
                'N',
            ) && ms[i].1 != seq!['V'],
    ensures
        keep_morphs(ms, komoran_excluded()) == keep_morphs(ms, khaiii_excluded()),
        forall|i: int|
            0 <= i < keep_morphs(ms, khaiii_excluded()).len() ==> (#[trigger] keep_morphs(
                ms,
                khaiii_excluded(),
            )[i]).1 != seq!['V'],
    decreases ms.len(),
{
    if ms.len() > 0 {
        assert forall|i: int| 0 <= i < ms.drop_last().len() implies (#[trigger] ms.drop_last()[i]).1
            != tag3('N', 'N', 'P') && ms.drop_last()[i].1 != tag3('X', 'P', 'N')
            && ms.drop_last()[i].1 != seq!['V'] by {
            assert(ms.drop_last()[i] == ms[i]);
        }
        lemma_keep_agree(ms.drop_last());
        assert(ms.last() == ms[ms.len() - 1]);
        lemma_excluded_agree(ms.last().1);
        let r = keep_morphs(ms.drop_last(), khaiii_excluded());
        assert forall|i: int| 0 <= i < keep_morphs(ms, khaiii_excluded()).len() implies (
        #[trigger] keep_morphs(ms, khaiii_excluded())[i]).1 != seq!['V'] by {
            if i < r.len() {
                assert(keep_morphs(ms, khaiii_excluded())[i] == r[i]);
            }
        }
    }
}

/// The two analyzers read one word alike: for a word none of whose
/// morphemes is tagged `NNP`, `XPN` or `V` (the tags on which the two
/// pipelines differ), the Khaiii words of that one word are its Komoran words.
pub proof fn lemma_khaiii_word_as_komoran(w: Seq<Morph>)
    requires
        forall|i: int|
            0 <= i < w.len() ==> (#[trigger] w[i]).1 != tag3('N', 'N', 'P') && w[i].1 != tag3(
                'X',
                'P',
                'N',
            ) && w[i].1 != seq!['V'],
    ensures
        khaiii_join(seq![w]) == komoran_join(w),
{
    let ws: Seq<Seq<Morph>> = seq![w];
    assert(ws.drop_last() =~= Seq::<Seq<Morph>>::empty());
    assert(khaiii_join(ws.drop_last()) == Some(Seq::<Seq<char>>::empty()));
    assert(ws.last() == w);
    lemma_keep_agree(w);
    lemma_word_builders_agree(keep_morphs(w, khaiii_excluded()));
    let j = join_morphs(keep_morphs(w, khaiii_excluded()), khaiii_verbs());
    if j is Some {
        assert(Seq::<Seq<char>>::empty() + j->0 =~= j->0);
    }
}

} // verus!
