use abjad::abjad::{Abjad, Form, Mark};
use abjad::word::{classify_letter, classify_mark, Word, WordError};

fn forms_of(w: &Word) -> Vec<Form> {
    w.letters.iter().map(|l| l.form).collect()
}

fn letters_of(w: &Word) -> Vec<Abjad> {
    w.letters.iter().map(|l| l.abjad).collect()
}

#[test]
fn classify_letter_examples() {
    assert_eq!(classify_letter('\u{0628}'), Some(Abjad::Beh));
    // The hamza-bearing alif shapes read as Alif.
    assert_eq!(classify_letter('\u{0627}'), Some(Abjad::Alif));
    assert_eq!(classify_letter('\u{0623}'), Some(Abjad::Alif));
    assert_eq!(classify_letter('\u{0625}'), Some(Abjad::Alif));
    // Both the plain and the maqsura shape read as Yeh.
    assert_eq!(classify_letter('\u{064A}'), Some(Abjad::Yeh));
    assert_eq!(classify_letter('\u{0649}'), Some(Abjad::Yeh));
    assert_eq!(classify_letter('x'), None);
    assert_eq!(classify_letter('\u{064E}'), None);
}

#[test]
fn classify_mark_examples() {
    assert_eq!(classify_mark('\u{064E}'), Some(Mark::Fatha));
    assert_eq!(classify_mark('\u{0650}'), Some(Mark::Kasra));
    assert_eq!(classify_mark('\u{064F}'), Some(Mark::Dumma));
    assert_eq!(classify_mark('\u{0651}'), Some(Mark::Shadda));
    assert_eq!(classify_mark('\u{0652}'), Some(Mark::Sukun));
    assert_eq!(classify_mark('\u{0628}'), None);
    assert_eq!(classify_mark('x'), None);
}

#[test]
fn single_unadorned_letter_is_isolated() {
    let w = Word::from_str("\u{0628}").unwrap();
    assert_eq!(letters_of(&w), vec![Abjad::Beh]);
    assert_eq!(forms_of(&w), vec![Form::Isolated]);
    assert!(w.letters[0].marks.is_empty());
}

#[test]
fn three_connectable_letters_take_initial_medial_final() {
    // Kaf, Teh, Beh: all three join into a following letter.
    let w = Word::from_str("\u{0643}\u{062A}\u{0628}").unwrap();
    assert_eq!(letters_of(&w), vec![Abjad::Kaf, Abjad::Teh, Abjad::Beh]);
    assert_eq!(forms_of(&w), vec![Form::Initial, Form::Medial, Form::Final]);
    for l in &w.letters {
        assert!(l.marks.is_empty());
    }
}

#[test]
fn non_joining_letters_break_the_run() {
    // Del, Alif, Reh: none joins into the letter after it, so each
    // stands isolated.
    let w = Word::from_str("\u{062F}\u{0627}\u{0631}").unwrap();
    assert_eq!(letters_of(&w), vec![Abjad::Del, Abjad::Alif, Abjad::Reh]);
    assert_eq!(
        forms_of(&w),
        vec![Form::Isolated, Form::Isolated, Form::Isolated]
    );
}

#[test]
fn run_ends_after_non_joining_letter() {
    // Beh joins into Del; Del does not join onward; Reh closes alone.
    let w = Word::from_str("\u{0628}\u{062F}\u{0631}").unwrap();
    assert_eq!(letters_of(&w), vec![Abjad::Beh, Abjad::Del, Abjad::Reh]);
    assert_eq!(
        forms_of(&w),
        vec![Form::Initial, Form::Final, Form::Isolated]
    );
}

#[test]
fn marks_in_the_cluster_attach_to_its_letter() {
    // One cluster: Beh with fatha and shadda.
    let w = Word::from_str("\u{0628}\u{064E}\u{0651}").unwrap();
    assert_eq!(letters_of(&w), vec![Abjad::Beh]);
    assert_eq!(forms_of(&w), vec![Form::Isolated]);
    assert_eq!(w.letters[0].marks, vec![Mark::Fatha, Mark::Shadda]);
}

#[test]
fn mark_clusters_accumulate_on_the_previous_letter() {
    // A letter cluster followed by two separate mark clusters yields one
    // annotated letter carrying both marks in encounter order.
    let clusters = vec![
        "\u{0628}".to_string(),
        "\u{064E}".to_string(),
        "\u{0651}".to_string(),
    ];
    let w = Word::from_clusters(&clusters).unwrap();
    assert_eq!(letters_of(&w), vec![Abjad::Beh]);
    assert_eq!(w.letters[0].marks, vec![Mark::Fatha, Mark::Shadda]);
}

#[test]
fn marks_keep_encounter_order() {
    let clusters = vec![
        "\u{0628}\u{0652}".to_string(),
        "\u{0650}".to_string(),
        "\u{064F}".to_string(),
    ];
    let w = Word::from_clusters(&clusters).unwrap();
    assert_eq!(
        w.letters[0].marks,
        vec![Mark::Sukun, Mark::Kasra, Mark::Dumma]
    );
}

#[test]
fn vowelled_word_parses_with_marks_per_letter() {
    // Kaf+fatha, Teh+fatha, Beh+fatha.
    let w = Word::from_str("\u{0643}\u{064E}\u{062A}\u{064E}\u{0628}\u{064E}").unwrap();
    assert_eq!(letters_of(&w), vec![Abjad::Kaf, Abjad::Teh, Abjad::Beh]);
    assert_eq!(forms_of(&w), vec![Form::Initial, Form::Medial, Form::Final]);
    for l in &w.letters {
        assert_eq!(l.marks, vec![Mark::Fatha]);
    }
}

#[test]
fn empty_input_parses_to_the_empty_word() {
    let w = Word::from_str("").unwrap();
    assert!(w.letters.is_empty());
}

#[test]
fn unrecognized_code_point_fails_with_its_position() {
    let r = Word::from_str("\u{0628}Q\u{062A}");
    match r {
        Err(WordError::Unrecognized { index, cluster }) => {
            assert_eq!(index, 1);
            assert_eq!(cluster, "Q".to_string());
        },
        other => panic!("expected an unrecognized-cluster failure, got {:?}", other),
    }
}

#[test]
fn unrecognized_first_cluster_fails_at_zero() {
    let r = Word::from_str("Q");
    match r {
        Err(WordError::Unrecognized { index, cluster }) => {
            assert_eq!(index, 0);
            assert_eq!(cluster, "Q".to_string());
        },
        other => panic!("expected an unrecognized-cluster failure, got {:?}", other),
    }
}

#[test]
fn letter_cluster_with_foreign_tail_is_unrecognized() {
    // A cluster whose base is a letter but whose combining part is not a
    // recognized mark.
    let clusters = vec!["\u{0628}\u{0655}".to_string()];
    let r = Word::from_clusters(&clusters);
    match r {
        Err(WordError::Unrecognized { index, .. }) => assert_eq!(index, 0),
        other => panic!("expected an unrecognized-cluster failure, got {:?}", other),
    }
}

#[test]
fn orphan_mark_fails_fast() {
    // A mark with no letter before it to attach to.
    let clusters = vec!["\u{064E}".to_string(), "\u{0628}".to_string()];
    let r = Word::from_clusters(&clusters);
    match r {
        Err(WordError::OrphanMark { index, cluster }) => {
            assert_eq!(index, 0);
            assert_eq!(cluster, "\u{064E}".to_string());
        },
        other => panic!("expected an orphan-mark failure, got {:?}", other),
    }
}

#[test]
fn orphan_mark_in_raw_text_fails_fast() {
    let r = Word::from_str("\u{064E}\u{0628}");
    match r {
        Err(WordError::OrphanMark { index, .. }) => assert_eq!(index, 0),
        other => panic!("expected an orphan-mark failure, got {:?}", other),
    }
}

#[test]
fn no_partial_word_on_failure() {
    // The failure comes even though a letter was already read.
    let r = Word::from_str("\u{0643}\u{062A}Q");
    assert!(matches!(
        r,
        Err(WordError::Unrecognized { index: 2, .. })
    ));
}

#[test]
fn two_letter_word_takes_initial_and_final() {
    let w = Word::from_str("\u{0628}\u{062F}").unwrap();
    assert_eq!(letters_of(&w), vec![Abjad::Beh, Abjad::Del]);
    assert_eq!(forms_of(&w), vec![Form::Initial, Form::Final]);
}
