//! What the line page shows of a sentence, and which field each stored
//! column of a deck line holds.

use vstd::prelude::*;
use crate::csv_parser::{column_count, column_name, row_map};
use crate::routes::csv_processing::column_of;
use crate::routes::views::flag_words;

verus! {

/// The words of a sentence are decided one by one: the words shown for two
/// parts of a sentence, one after the other, are those shown for each part.
pub proof fn lemma_flag_words_concat(
    w1: Seq<Seq<char>>,
    k1: Seq<Option<bool>>,
    w2: Seq<Seq<char>>,
    k2: Seq<Option<bool>>,
)
    requires
        w1.len() == k1.len(),
        w2.len() == k2.len(),
    ensures
        flag_words(w1 + w2, k1 + k2) == flag_words(w1, k1) + flag_words(w2, k2),
    decreases w2.len(),
{
    if w2.len() == 0 {
        assert(w1 + w2 =~= w1);
        assert(k1 + k2 =~= k1);
        assert(flag_words(w1, k1) + flag_words(w2, k2) =~= flag_words(w1, k1));
    } else {
        lemma_flag_words_concat(w1, k1, w2.drop_last(), k2.drop_last());
        assert((w1 + w2).drop_last() =~= w1 + w2.drop_last());
        assert((k1 + k2).drop_last() =~= k1 + k2.drop_last());
        assert((w1 + w2).last() == w2.last());
        assert((k1 + k2).last() == k2.last());
        let a = flag_words(w1, k1);
        let b = flag_words(w2.drop_last(), k2.drop_last());
        assert(a + b.push((w2.last(), false)) =~= (a + b).push((w2.last(), false)));
        assert(a + b.push((w2.last(), true)) =~= (a + b).push((w2.last(), true)));
    }
}

/// One word on its own: a word the store does not hold is shown as new, a
/// held word that is not ignored is shown as a repeat, an ignored word is
/// not shown.
pub proof fn lemma_flag_one_word(w: Seq<char>, k: Option<bool>)
    ensures
        flag_words(seq![w], seq![k]) == match k {
            None => seq![(w, false)],
            Some(ignored) => if ignored {
                Seq::<(Seq<char>, bool)>::empty()
            } else {
                seq![(w, true)]
            },
        },
{
    assert(seq![w].drop_last() =~= Seq::<Seq<char>>::empty());
    assert(seq![k].drop_last() =~= Seq::<Option<bool>>::empty());
    assert(flag_words(seq![w].drop_last(), seq![k].drop_last()) == Seq::<(Seq<char>, bool)>::empty());
    assert(seq![w].last() == w);
    assert(seq![k].last() == k);
    assert(Seq::<(Seq<char>, bool)>::empty().push((w, false)) =~= seq![(w, false)]);
    assert(Seq::<(Seq<char>, bool)>::empty().push((w, true)) =~= seq![(w, true)]);
}

/// Every word of a sentence that the store does not hold is shown, flagged
/// as new, and every held word that is not ignored is shown, flagged as a
/// repeat, whatever the words around it are.
pub proof fn lemma_flag_words_shows(words: Seq<Seq<char>>, known: Seq<Option<bool>>, i: int)
    requires
        words.len() == known.len(),
        0 <= i < words.len(),
    ensures
        known[i] is None ==> flag_words(words, known).contains((words[i], false)),
        known[i] == Some(false) ==> flag_words(words, known).contains((words[i], true)),
{
    let w1 = words.take(i);
    let k1 = known.take(i);
    let w2 = words.skip(i + 1);
    let k2 = known.skip(i + 1);
    lemma_flag_one_word(words[i], known[i]);
    lemma_flag_words_concat(w1, k1, seq![words[i]], seq![known[i]]);
    lemma_flag_words_concat(w1 + seq![words[i]], k1 + seq![known[i]], w2, k2);
    assert(w1 + seq![words[i]] + w2 =~= words);
    assert(k1 + seq![known[i]] + k2 =~= known);
    let a = flag_words(w1, k1);
    let r = flag_words(words, known);
    if known[i] is None {
        assert(r[a.len() as int] == (words[i], false));
    }
    if known[i] == Some(false) {
        assert(r[a.len() as int] == (words[i], true));
    }
}

/// Nothing else is shown: every shown word is a word of the sentence that
/// is not ignored, flagged as a repeat exactly when the store holds it.
pub proof fn lemma_flag_words_only(words: Seq<Seq<char>>, known: Seq<Option<bool>>, j: int)
    requires
        words.len() == known.len(),
        0 <= j < flag_words(words, known).len(),
    ensures
        exists|i: int|
            0 <= i < words.len() && known[i] != Some(true) && #[trigger] flag_words(words, known)[j]
                == (words[i], known[i] is Some),
    decreases words.len(),
{
    let rest = flag_words(words.drop_last(), known.drop_last());
    let n = words.len() - 1;
    if j < rest.len() {
        lemma_flag_words_only(words.drop_last(), known.drop_last(), j);
        let i = choose|i: int|
            0 <= i < words.drop_last().len() && known.drop_last()[i] != Some(true)
                && #[trigger] rest[j] == (words.drop_last()[i], known.drop_last()[i] is Some);
        assert(flag_words(words, known)[j] == rest[j]);
        assert(words[i] == words.drop_last()[i] && known[i] == known.drop_last()[i]);
    } else {
        assert(known.last() == known[n] && words.last() == words[n]);
        assert(flag_words(words, known)[j] == (words[n], known[n] is Some));
    }
}

proof fn lemma_column_names_distinct(i: int, j: int)
    requires
        0 <= i < column_count(),
        0 <= j < column_count(),
        i != j,
    ensures
        column_name(i) != column_name(j),
{
    if column_name(i) == column_name(j) {
        assert(column_name(i).len() == column_name(j).len());
        assert(column_name(i)[0] == column_name(j)[0]);
    }
}

/// Each stored column of a line holds the line's field under that column's
/// name (the record zipped with the names `tag`, `sq_marker`, `audio`,
/// `picture`, `tl_subs`, `nl_subs`), and nothing when the line has no such
/// field.
pub proof fn lemma_column_is_named_field(row: Seq<Seq<char>>, k: int)
    requires
        row.len() <= column_count(),
        0 <= k < column_count(),
    ensures
        column_of(row, k) == if row_map(row).contains_key(column_name(k)) {
            Some(row_map(row)[column_name(k)])
        } else {
            None::<Seq<char>>
        },
{
    let name = column_name(k);
    if k < row.len() {
        assert(row_map(row).contains_key(name));
        let c = choose|i: int| 0 <= i < row.len() && i < column_count() && name == column_name(i);
        if c != k {
            lemma_column_names_distinct(c, k);
        }
        assert(row_map(row)[name] == row[k]);
    } else {
        if row_map(row).contains_key(name) {
            let c = choose|i: int| 0 <= i < row.len() && i < column_count() && name == column_name(i);
            lemma_column_names_distinct(c, k);
        }
    }
}

} // verus!
