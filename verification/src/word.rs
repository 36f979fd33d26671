//! The word parser: turns a string, segmented into Unicode extended
//! grapheme clusters, into the ordered sequence of annotated letters
//! that make up one word.
//!
//! A cluster either starts with a recognized letter code point, with any
//! following code points being recognized marks, or consists of
//! recognized marks alone, which then attach to the most recently read
//! letter. Once the full letter run is known, each letter's form follows
//! from its neighbours: a letter joins into the next one unless it is
//! one of the six that never connect leftwards, and every letter accepts
//! a join from a preceding joining letter.

use crate::abjad::{Abjad, Form, FormedAbjad, Mark};
use unicode_segmentation::UnicodeSegmentation;
use vstd::prelude::*;
use vstd::string::StrSliceExecFns;

verus! {

/// The letter a code point denotes, if any. The hamza-bearing alif
/// shapes read as Alif, and the maqsura shape reads as Yeh.
pub open spec fn letter_of(c: char) -> Option<Abjad> {
    if c == '\u{0627}' || c == '\u{0623}' || c == '\u{0625}' {
        Some(Abjad::Alif)
    } else if c == '\u{0628}' {
        Some(Abjad::Beh)
    } else if c == '\u{062A}' {
        Some(Abjad::Teh)
    } else if c == '\u{062B}' {
        Some(Abjad::Theh)
    } else if c == '\u{062C}' {
        Some(Abjad::Jeem)
    } else if c == '\u{062D}' {
        Some(Abjad::Ha)
    } else if c == '\u{062E}' {
        Some(Abjad::Kha)
    } else if c == '\u{062F}' {
        Some(Abjad::Del)
    } else if c == '\u{0630}' {
        Some(Abjad::Thel)
    } else if c == '\u{0631}' {
        Some(Abjad::Reh)
    } else if c == '\u{0632}' {
        Some(Abjad::Zayn)
    } else if c == '\u{0633}' {
        Some(Abjad::Seen)
    } else if c == '\u{0634}' {
        Some(Abjad::Sheen)
    } else if c == '\u{0635}' {
        Some(Abjad::Saad)
    } else if c == '\u{0636}' {
        Some(Abjad::Daad)
    } else if c == '\u{0637}' {
        Some(Abjad::Ta)
    } else if c == '\u{0638}' {
        Some(Abjad::Tha)
    } else if c == '\u{0639}' {
        Some(Abjad::Ayn)
    } else if c == '\u{063A}' {
        Some(Abjad::Ghayn)
    } else if c == '\u{0641}' {
        Some(Abjad::Feh)
    } else if c == '\u{0642}' {
        Some(Abjad::Qaf)
    } else if c == '\u{0643}' {
        Some(Abjad::Kaf)
    } else if c == '\u{0644}' {
        Some(Abjad::Lam)
    } else if c == '\u{0645}' {
        Some(Abjad::Meem)
    } else if c == '\u{0646}' {
        Some(Abjad::Nun)
    } else if c == '\u{0647}' {
        Some(Abjad::Heh)
    } else if c == '\u{0648}' {
        Some(Abjad::Waw)
    } else if c == '\u{064A}' || c == '\u{0649}' {
        Some(Abjad::Yeh)
    } else {
        None
    }
}

/// The diacritic mark a code point denotes, if any.
pub open spec fn mark_of(c: char) -> Option<Mark> {
    if c == '\u{064E}' {
        Some(Mark::Fatha)
    } else if c == '\u{0650}' {
        Some(Mark::Kasra)
    } else if c == '\u{064F}' {
        Some(Mark::Dumma)
    } else if c == '\u{0651}' {
        Some(Mark::Shadda)
    } else if c == '\u{0652}' {
        Some(Mark::Sukun)
    } else {
        None
    }
}

/// Whether a code point denotes a letter.
pub open spec fn is_letter_char(c: char) -> bool {
    letter_of(c) is Some
}

/// Whether a code point denotes a mark.
pub open spec fn is_mark_char(c: char) -> bool {
    mark_of(c) is Some
}

/// The letter a letter code point denotes.
pub open spec fn letter_char(c: char) -> Abjad {
    match letter_of(c) {
        Some(a) => a,
        None => Abjad::Alif,
    }
}

/// The mark a mark code point denotes.
pub open spec fn mark_char(c: char) -> Mark {
    match mark_of(c) {
        Some(m) => m,
        None => Mark::Sukun,
    }
}

/// No code point denotes both a letter and a mark.
pub proof fn lemma_letter_mark_disjoint(c: char)
    ensures
        !(is_letter_char(c) && is_mark_char(c)),
{
}

/// Classifies a code point as a letter of the catalog.
pub fn classify_letter(c: char) -> (r: Option<Abjad>)
    ensures
        r == letter_of(c),
{
    if c == '\u{0627}' || c == '\u{0623}' || c == '\u{0625}' {
        Some(Abjad::Alif)
    } else if c == '\u{0628}' {
        Some(Abjad::Beh)
    } else if c == '\u{062A}' {
        Some(Abjad::Teh)
    } else if c == '\u{062B}' {
        Some(Abjad::Theh)
    } else if c == '\u{062C}' {
        Some(Abjad::Jeem)
    } else if c == '\u{062D}' {
        Some(Abjad::Ha)
    } else if c == '\u{062E}' {
        Some(Abjad::Kha)
    } else if c == '\u{062F}' {
        Some(Abjad::Del)
    } else if c == '\u{0630}' {
        Some(Abjad::Thel)
    } else if c == '\u{0631}' {
        Some(Abjad::Reh)
    } else if c == '\u{0632}' {
        Some(Abjad::Zayn)
    } else if c == '\u{0633}' {
        Some(Abjad::Seen)
    } else if c == '\u{0634}' {
        Some(Abjad::Sheen)
    } else if c == '\u{0635}' {
        Some(Abjad::Saad)
    } else if c == '\u{0636}' {
        Some(Abjad::Daad)
    } else if c == '\u{0637}' {
        Some(Abjad::Ta)
    } else if c == '\u{0638}' {
        Some(Abjad::Tha)
    } else if c == '\u{0639}' {
        Some(Abjad::Ayn)
    } else if c == '\u{063A}' {
        Some(Abjad::Ghayn)
    } else if c == '\u{0641}' {
        Some(Abjad::Feh)
    } else if c == '\u{0642}' {
        Some(Abjad::Qaf)
    } else if c == '\u{0643}' {
        Some(Abjad::Kaf)
    } else if c == '\u{0644}' {
        Some(Abjad::Lam)
    } else if c == '\u{0645}' {
        Some(Abjad::Meem)
    } else if c == '\u{0646}' {
        Some(Abjad::Nun)
    } else if c == '\u{0647}' {
        Some(Abjad::Heh)
    } else if c == '\u{0648}' {
        Some(Abjad::Waw)
    } else if c == '\u{064A}' || c == '\u{0649}' {
        Some(Abjad::Yeh)
    } else {
        None
    }
}

/// Classifies a code point as a diacritic mark.
pub fn classify_mark(c: char) -> (r: Option<Mark>)
    ensures
        r == mark_of(c),
{
    if c == '\u{064E}' {
        Some(Mark::Fatha)
    } else if c == '\u{0650}' {
        Some(Mark::Kasra)
    } else if c == '\u{064F}' {
        Some(Mark::Dumma)
    } else if c == '\u{0651}' {
        Some(Mark::Shadda)
    } else if c == '\u{0652}' {
        Some(Mark::Sukun)
    } else {
        None
    }
}

/// Whether a letter, as written, joins into the letter that follows it.
/// Six letters never connect leftwards; every letter accepts a join from
/// a joining letter before it.
pub open spec fn joins_next(a: Abjad) -> bool {
    !matches!(a, Abjad::Alif | Abjad::Del | Abjad::Thel | Abjad::Reh | Abjad::Zayn | Abjad::Waw)
}

/// Whether this letter joins into a following letter, as a machine
/// check.
pub fn joins_next_letter(a: Abjad) -> (r: bool)
    ensures
        r == joins_next(a),
{
    !(matches!(a, Abjad::Alif | Abjad::Del | Abjad::Thel | Abjad::Reh | Abjad::Zayn | Abjad::Waw))
}

/// Whether every code point of `c` denotes a mark.
pub open spec fn all_marks(c: Seq<char>) -> bool {
    forall|i: int| 0 <= i < c.len() ==> is_mark_char(#[trigger] c[i])
}

/// The marks a run of mark code points denotes, in order.
pub open spec fn marks_seq(c: Seq<char>) -> Seq<Mark> {
    c.map_values(|ch: char| mark_char(ch))
}

/// A letter cluster: a letter code point followed only by mark code
/// points.
pub open spec fn is_letter_cluster(c: Seq<char>) -> bool {
    c.len() > 0 && is_letter_char(c[0]) && all_marks(c.subrange(1, c.len() as int))
}

/// A mark cluster: one or more mark code points and nothing else.
pub open spec fn is_mark_cluster(c: Seq<char>) -> bool {
    c.len() > 0 && all_marks(c)
}

/// A recognized cluster is one or the other.
pub open spec fn cluster_ok(c: Seq<char>) -> bool {
    is_letter_cluster(c) || is_mark_cluster(c)
}

/// A cluster stream parses to a word when every cluster is recognized
/// and no mark cluster comes before the first letter.
pub open spec fn valid_clusters(cs: Seq<Seq<char>>) -> bool {
    &&& forall|j: int| 0 <= j < cs.len() ==> cluster_ok(#[trigger] cs[j])
    &&& cs.len() > 0 ==> is_letter_cluster(cs[0])
}

/// The letters a cluster stream denotes, each with its accumulated
/// marks in encounter order: a letter cluster opens a new letter with
/// the marks written inside the cluster, and a mark cluster adds its
/// marks to the letter before it.
pub open spec fn letters_of(cs: Seq<Seq<char>>) -> Seq<(Abjad, Seq<Mark>)>
    decreases cs.len(),
{
    if cs.len() == 0 {
        Seq::empty()
    } else {
        let front = letters_of(cs.drop_last());
        let c = cs.last();
        if is_letter_cluster(c) {
            front.push((letter_char(c[0]), marks_seq(c.subrange(1, c.len() as int))))
        } else if front.len() > 0 {
            let last = front.last();
            front.update(front.len() - 1, (last.0, last.1 + marks_seq(c)))
        } else {
            front
        }
    }
}

/// The bare letter run of a cluster stream.
pub open spec fn base_letters(cs: Seq<Seq<char>>) -> Seq<Abjad> {
    letters_of(cs).map_values(|p: (Abjad, Seq<Mark>)| p.0)
}

/// The form the letter at position `i` of a letter run takes: joined
/// from before exactly when the previous letter joins leftwards, joined
/// after exactly when this letter joins leftwards and a next letter
/// exists.
pub open spec fn form_at(base: Seq<Abjad>, i: int) -> Form {
    let joined_before = 0 < i && joins_next(base[i - 1]);
    let joined_after = i + 1 < base.len() && joins_next(base[i]);
    if joined_before {
        if joined_after {
            Form::Medial
        } else {
            Form::Final
        }
    } else {
        if joined_after {
            Form::Initial
        } else {
            Form::Isolated
        }
    }
}

/// Whether `w` is the word a cluster stream denotes: one annotated
/// letter per letter of the stream, in encounter order, each with its
/// accumulated marks and its positional form.
pub open spec fn word_of(cs: Seq<Seq<char>>, w: Seq<FormedAbjad>) -> bool {
    let lm = letters_of(cs);
    &&& w.len() == lm.len()
    &&& forall|i: int|
        0 <= i < w.len() ==> ((#[trigger] w[i]).abjad == lm[i].0 && w[i].marks@ == lm[i].1
            && w[i].form == form_at(base_letters(cs), i))
}

/// Why a cluster stream failed to parse.
#[derive(Debug, PartialEq, Eq)]
pub enum WordError {
    /// A cluster whose code points map to neither a letter cluster nor a
    /// mark cluster, with its position in the stream.
    Unrecognized { index: usize, cluster: String },
    /// A mark cluster that arrived before any letter it could attach to,
    /// with its position in the stream.
    OrphanMark { index: usize, cluster: String },
}

/// An ordered collection of annotated letters produced by parsing one
/// input string, in encounter order.
#[derive(Debug)]
pub struct Word {
    pub letters: Vec<FormedAbjad>,
}

/// What parsing a cluster stream must return: the denoted word exactly
/// when the stream is valid; otherwise an orphan-mark failure when the
/// stream opens with a recognized mark cluster, and an unrecognized-
/// cluster failure at the first bad cluster in every other case. An
/// empty stream parses to the empty word.
pub open spec fn parse_outcome(cs: Seq<Seq<char>>, r: Result<Word, WordError>) -> bool {
    match r {
        Ok(w) => valid_clusters(cs) && word_of(cs, w.letters@),
        Err(WordError::OrphanMark { index, cluster }) => {
            &&& !valid_clusters(cs)
            &&& index == 0
            &&& cs.len() > 0
            &&& is_mark_cluster(cs[0])
            &&& cluster@ == cs[0]
        },
        Err(WordError::Unrecognized { index, cluster }) => {
            &&& 0 <= index < cs.len()
            &&& !cluster_ok(cs[index as int])
            &&& cluster@ == cs[index as int]
            &&& forall|i: int| 0 <= i < index ==> cluster_ok(#[trigger] cs[i])
            &&& index > 0 ==> is_letter_cluster(cs[0])
        },
    }
}

/// A stream that opens with a letter cluster denotes at least one
/// letter.
proof fn lemma_letters_nonempty(cs: Seq<Seq<char>>)
    requires
        cs.len() > 0,
        is_letter_cluster(cs[0]),
    ensures
        letters_of(cs).len() >= 1,
    decreases cs.len(),
{
    if cs.len() > 1 {
        assert(cs.drop_last()[0] == cs[0]);
        lemma_letters_nonempty(cs.drop_last());
    }
}

impl Word {
    /// Parses a stream of grapheme clusters into a word: each cluster
    /// must be a recognized letter cluster or a recognized mark cluster,
    /// marks attach to the most recent letter in encounter order, and
    /// each letter's form follows from its joining neighbours. An empty
    /// stream gives the empty word; a mark cluster before any letter,
    /// or an unrecognized cluster, is a failure naming the offending
    /// cluster and its position.
    #[verifier::loop_isolation(false)]
    pub fn from_clusters(clusters: &Vec<String>) -> (r: Result<Word, WordError>)
        ensures
            parse_outcome(clusters.deep_view(), r),
    {
        let ghost cs = clusters.deep_view();
        let mut letters: Vec<Abjad> = Vec::new();
        let mut marks: Vec<Vec<Mark>> = Vec::new();
        let mut j: usize = 0;
        while j < clusters.len()
            invariant
                0 <= j <= clusters.len(),
                cs == clusters.deep_view(),
                cs.len() == clusters.len(),
                forall|i: int| 0 <= i < j ==> cluster_ok(#[trigger] cs[i]),
                j > 0 ==> is_letter_cluster(cs[0]),
                letters@.len() == letters_of(cs.take(j as int)).len(),
                marks@.len() == letters@.len(),
                forall|i: int|
                    0 <= i < letters@.len() ==> #[trigger] letters@[i] == letters_of(
                        cs.take(j as int),
                    )[i].0,
                forall|i: int|
                    0 <= i < letters@.len() ==> (#[trigger] marks@[i])@ == letters_of(
                        cs.take(j as int),
                    )[i].1,
            decreases clusters.len() - j,
        {
            let cluster = &clusters[j];
            let cstr = cluster.as_str();
            let clen = cstr.unicode_len();
            let ghost cj = cs[j as int];
            proof {
                assert(cj == clusters@[j as int]@);
                assert(cs.take(j + 1).drop_last() =~= cs.take(j as int));
                assert(cs.take(j + 1).last() == cj);
            }
            if clen == 0 {
                proof {
                    assert(!cluster_ok(cj));
                }
                return Err(WordError::Unrecognized { index: j, cluster: cluster.clone() });
            }
            let c0 = cstr.get_char(0);
            match classify_letter(c0) {
                Some(l) => {
                    let mut ms: Vec<Mark> = Vec::new();
                    let mut k: usize = 1;
                    while k < clen
                        invariant
                            1 <= k <= clen,
                            clen == cj.len(),
                            cstr@ == cj,
                            ms@ == marks_seq(cj.subrange(1, k as int)),
                            forall|i: int| 1 <= i < k ==> is_mark_char(#[trigger] cj[i]),
                        decreases clen - k,
                    {
                        let ch = cstr.get_char(k);
                        match classify_mark(ch) {
                            Some(m) => {
                                ms.push(m);
                                proof {
                                    assert(cj.subrange(1, k + 1) =~= cj.subrange(
                                        1,
                                        k as int,
                                    ).push(cj[k as int]));
                                    assert(marks_seq(cj.subrange(1, k + 1)) =~= marks_seq(
                                        cj.subrange(1, k as int),
                                    ).push(mark_char(cj[k as int])));
                                }
                            },
                            None => {
                                proof {
                                    lemma_letter_mark_disjoint(cj[0]);
                                    assert(cj.subrange(1, cj.len() as int)[k - 1] == cj[k as int]);
                                    assert(!all_marks(cj.subrange(1, cj.len() as int)));
                                    assert(!cluster_ok(cj));
                                }
                                return Err(
                                    WordError::Unrecognized {
                                        index: j,
                                        cluster: cluster.clone(),
                                    },
                                );
                            },
                        }
                        k += 1;
                    }
                    proof {
                        let tail = cj.subrange(1, cj.len() as int);
                        assert(forall|i: int|
                            0 <= i < tail.len() ==> #[trigger] tail[i] == cj[i + 1]);
                        assert(is_letter_cluster(cj));
                        assert(letters_of(cs.take(j + 1)) == letters_of(cs.take(j as int)).push(
                            (letter_char(cj[0]), marks_seq(tail)),
                        ));
                    }
                    letters.push(l);
                    marks.push(ms);
                },
                None => {
                    match classify_mark(c0) {
                        Some(_) => {
                            let mut ms: Vec<Mark> = Vec::new();
                            let mut k: usize = 0;
                            while k < clen
                                invariant
                                    0 <= k <= clen,
                                    clen == cj.len(),
                                    cstr@ == cj,
                                    ms@ == marks_seq(cj.subrange(0, k as int)),
                                    forall|i: int| 0 <= i < k ==> is_mark_char(#[trigger] cj[i]),
                                decreases clen - k,
                            {
                                let ch = cstr.get_char(k);
                                match classify_mark(ch) {
                                    Some(m) => {
                                        ms.push(m);
                                        proof {
                                            assert(cj.subrange(0, k + 1) =~= cj.subrange(
                                                0,
                                                k as int,
                                            ).push(cj[k as int]));
                                            assert(marks_seq(cj.subrange(0, k + 1)) =~= marks_seq(
                                                cj.subrange(0, k as int),
                                            ).push(mark_char(cj[k as int])));
                                        }
                                    },
                                    None => {
                                        proof {
                                            assert(!is_letter_char(cj[0]));
                                            assert(!all_marks(cj));
                                            assert(!cluster_ok(cj));
                                        }
                                        return Err(
                                            WordError::Unrecognized {
                                                index: j,
                                                cluster: cluster.clone(),
                                            },
                                        );
                                    },
                                }
                                k += 1;
                            }
                            proof {
                                assert(cj.subrange(0, cj.len() as int) =~= cj);
                                assert(is_mark_cluster(cj));
                                lemma_letter_mark_disjoint(cj[0]);
                                assert(!is_letter_cluster(cj));
                            }
                            if letters.is_empty() {
                                proof {
                                    if j > 0 {
                                        assert(cs.take(j as int)[0] == cs[0]);
                                        lemma_letters_nonempty(cs.take(j as int));
                                        assert(false);
                                    }
                                    assert(!valid_clusters(cs));
                                }
                                return Err(
                                    WordError::OrphanMark {
                                        index: j,
                                        cluster: cluster.clone(),
                                    },
                                );
                            }
                            let ghost front = letters_of(cs.take(j as int));
                            let mut lastm = marks.pop().unwrap();
                            lastm.append(&mut ms);
                            marks.push(lastm);
                            proof {
                                let lastp = front.last();
                                assert(letters_of(cs.take(j + 1)) == front.update(
                                    front.len() - 1,
                                    (lastp.0, lastp.1 + marks_seq(cj)),
                                ));
                            }
                        },
                        None => {
                            proof {
                                assert(!is_letter_char(cj[0]));
                                assert(!is_mark_char(cj[0]));
                                assert(!all_marks(cj));
                                assert(!cluster_ok(cj));
                            }
                            return Err(
                                WordError::Unrecognized { index: j, cluster: cluster.clone() },
                            );
                        },
                    }
                },
            }
            j += 1;
        }
        proof {
            assert(cs.take(cs.len() as int) =~= cs);
            assert(valid_clusters(cs));
        }
        let ghost lm = letters_of(cs);
        let ghost base = base_letters(cs);
        proof {
            assert(letters@.len() == base.len());
            assert(forall|i: int| 0 <= i < letters@.len() ==> #[trigger] letters@[i] == base[i]);
            assert(letters@ =~= base);
        }
        let n = letters.len();
        let mut out: Vec<FormedAbjad> = Vec::new();
        let mut i: usize = 0;
        while i < n
            invariant
                0 <= i <= n,
                n == letters.len(),
                letters@ == base,
                base == base_letters(cs),
                lm == letters_of(cs),
                n == lm.len(),
                marks@.len() == n - i,
                forall|k: int| 0 <= k < n - i ==> (#[trigger] marks@[k])@ == lm[i + k].1,
                out@.len() == i,
                forall|k: int|
                    0 <= k < i ==> ((#[trigger] out@[k]).abjad == lm[k].0 && out@[k].marks@
                        == lm[k].1 && out@[k].form == form_at(base, k)),
            decreases n - i,
        {
            let joined_before = if i > 0 {
                joins_next_letter(letters[i - 1])
            } else {
                false
            };
            let joined_after = if i + 1 < n {
                joins_next_letter(letters[i])
            } else {
                false
            };
            let f = if joined_before {
                if joined_after {
                    Form::Medial
                } else {
                    Form::Final
                }
            } else {
                if joined_after {
                    Form::Initial
                } else {
                    Form::Isolated
                }
            };
            let ms = marks.remove(0);
            out.push(FormedAbjad { abjad: letters[i], form: f, marks: ms });
            i += 1;
        }
        Ok(Word { letters: out })
    }

    /// Parses a raw string into a word. The string is first segmented
    /// into Unicode extended grapheme clusters by the external
    /// segmentation facility, and the cluster stream is then parsed as
    /// `from_clusters` does: the result is exactly the parse of that
    /// stream. An empty input gives the empty word.
    pub fn from_str(s: &str) -> (r: Result<Word, WordError>)
        ensures
            parse_outcome(graphemes_of(s@), r),
    {
        let clusters = grapheme_clusters(s);
        Word::from_clusters(&clusters)
    }
}

/// The concatenation of a stream of character runs.
pub open spec fn concat_chars(cs: Seq<Seq<char>>) -> Seq<char>
    decreases cs.len(),
{
    if cs.len() == 0 {
        Seq::empty()
    } else {
        concat_chars(cs.drop_last()) + cs.last()
    }
}

/// The extended grapheme clusters of a string, in order. Segmentation
/// depends on the characters alone.
pub uninterp spec fn graphemes_of(s: Seq<char>) -> Seq<Seq<char>>;

/// Relies on unicode_segmentation's UnicodeSegmentation::graphemes: the
/// extended grapheme clusters of the string, in order; they are
/// nonempty substrings whose concatenation is the original string, so
/// an empty string has none.
#[verifier::external_body]
fn grapheme_clusters(s: &str) -> (r: Vec<String>)
    ensures
        r.deep_view() == graphemes_of(s@),
        concat_chars(r.deep_view()) == s@,
        forall|i: int| 0 <= i < r.deep_view().len() ==> (#[trigger] r.deep_view()[i]).len() > 0,
        s@.len() == 0 ==> r.deep_view().len() == 0,
{
    s.graphemes(true).map(|g| g.to_string()).collect()
}

/// In a run of letters with no internal break — every letter except
/// possibly the last joins into its successor — the first letter is
/// Initial (or Isolated when it stands alone), the last is Final, and
/// every interior letter is Medial.
pub proof fn lemma_connected_run_forms(base: Seq<Abjad>)
    requires
        forall|i: int| 0 <= i < base.len() - 1 ==> joins_next(#[trigger] base[i]),
    ensures
        base.len() == 1 ==> form_at(base, 0) == Form::Isolated,
        base.len() > 1 ==> form_at(base, 0) == Form::Initial,
        base.len() > 1 ==> form_at(base, base.len() - 1) == Form::Final,
        forall|i: int| 1 <= i < base.len() - 1 ==> form_at(base, i) == Form::Medial,
{
}

/// A letter cluster followed by two mark clusters denotes one letter
/// carrying the letter cluster's own marks and then both clusters'
/// marks, in encounter order.
pub proof fn lemma_mark_accumulation(c0: Seq<char>, c1: Seq<char>, c2: Seq<char>)
    ensures
        is_letter_cluster(c0) && is_mark_cluster(c1) && is_mark_cluster(c2) ==> {
            let cs = seq![c0, c1, c2];
            &&& valid_clusters(cs)
            &&& letters_of(cs).len() == 1
            &&& letters_of(cs)[0].0 == letter_char(c0[0])
            &&& letters_of(cs)[0].1 == marks_seq(c0.subrange(1, c0.len() as int)) + marks_seq(c1)
                + marks_seq(c2)
        },
{
    reveal_with_fuel(letters_of, 4);
    if is_letter_cluster(c0) && is_mark_cluster(c1) && is_mark_cluster(c2) {
        let cs = seq![c0, c1, c2];
        lemma_letter_mark_disjoint(c1[0]);
        lemma_letter_mark_disjoint(c2[0]);
        let s1 = seq![c0];
        let s2 = seq![c0, c1];
        assert(s1.drop_last() =~= Seq::<Seq<char>>::empty());
        assert(s2.drop_last() =~= s1);
        assert(cs.drop_last() =~= s2);
        let p0 = (letter_char(c0[0]), marks_seq(c0.subrange(1, c0.len() as int)));
        assert(letters_of(s1) =~= seq![p0]);
        let p1 = (p0.0, p0.1 + marks_seq(c1));
        assert(letters_of(s2) =~= seq![p0].update(0, p1));
        assert(seq![p0].update(0, p1) =~= seq![p1]);
        let p2 = (p1.0, p1.1 + marks_seq(c2));
        assert(letters_of(cs) =~= seq![p1].update(0, p2));
        assert(seq![p1].update(0, p2) =~= seq![p2]);
        assert(letters_of(cs)[0].1 =~= marks_seq(c0.subrange(1, c0.len() as int)) + marks_seq(c1)
            + marks_seq(c2));
    }
}

} // verus!
