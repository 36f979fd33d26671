use abjad::abjad::{Abjad, Duals, Form, FormedAbjad, Mark, Triples};
use abjad::names::abjad::Name as LetterName;
use abjad::names::harakat::Name as MarkName;
use std::cmp::Ordering;

#[test]
fn catalog_has_28_distinct_letters() {
    let all = Abjad::all_cases();
    assert_eq!(all.len(), 28);
    for i in 0..all.len() {
        for j in 0..all.len() {
            if i != j {
                assert_ne!(all[i], all[j]);
            }
        }
    }
    assert_eq!(all[0], Abjad::Alif);
    assert_eq!(all[27], Abjad::Yeh);
}

#[test]
fn dual_cases_are_the_six_weak_letters() {
    let duals = Duals::cases();
    assert_eq!(
        duals,
        vec![
            Abjad::Alif,
            Abjad::Del,
            Abjad::Thel,
            Abjad::Reh,
            Abjad::Zayn,
            Abjad::Waw,
        ]
    );
}

#[test]
fn triple_cases_are_catalog_minus_duals() {
    let all = Abjad::all_cases();
    let duals = Duals::cases();
    let triples = Triples::cases();
    assert_eq!(triples.len(), 22);
    let expected: Vec<Abjad> = all
        .iter()
        .copied()
        .filter(|a| !duals.contains(a))
        .collect();
    assert_eq!(triples, expected);
}

#[test]
fn classification_partitions_every_letter() {
    for a in Abjad::all_cases() {
        let dual = a.is_dual();
        let triple = a.is_triple();
        // Exactly one of the two classifications succeeds, returning the
        // letter itself.
        match (dual, triple) {
            (Some(d), None) => assert_eq!(d, a),
            (None, Some(t)) => assert_eq!(t, a),
            other => panic!("letter classified as {:?}", other),
        }
    }
}

#[test]
fn classification_examples() {
    assert_eq!(Abjad::Alif.is_dual(), Some(Abjad::Alif));
    assert_eq!(Abjad::Alif.is_triple(), None);
    assert_eq!(Abjad::Beh.is_dual(), None);
    assert_eq!(Abjad::Beh.is_triple(), Some(Abjad::Beh));
    assert_eq!(Abjad::Waw.is_dual(), Some(Abjad::Waw));
    assert_eq!(Abjad::Kaf.is_triple(), Some(Abjad::Kaf));
}

#[test]
fn dual_and_triple_sets_are_disjoint_and_cover() {
    let all = Abjad::all_cases();
    let duals = Duals::cases();
    let triples = Triples::cases();
    for a in &all {
        assert!(duals.contains(a) != triples.contains(a));
    }
    for d in &duals {
        assert!(all.contains(d));
    }
    for t in &triples {
        assert!(all.contains(t));
    }
    assert_eq!(duals.len() + triples.len(), all.len());
}

#[test]
fn form_order_is_total_over_four_values() {
    let forms = [Form::Isolated, Form::Initial, Form::Medial, Form::Final];
    assert!(Form::Isolated < Form::Initial);
    assert!(Form::Initial < Form::Medial);
    assert!(Form::Medial < Form::Final);
    assert!(Form::Isolated < Form::Medial);
    assert!(Form::Isolated < Form::Final);
    assert!(Form::Initial < Form::Final);
    for a in forms {
        for b in forms {
            // The order is total: every pair compares.
            assert!(a.partial_cmp(&b).is_some());
            if a == b {
                assert_eq!(a.partial_cmp(&b), Some(Ordering::Equal));
            }
        }
    }
}

#[test]
fn annotated_equality_needs_all_three_fields() {
    let a = FormedAbjad {
        abjad: Abjad::Beh,
        form: Form::Initial,
        marks: vec![Mark::Fatha],
    };
    let same = FormedAbjad {
        abjad: Abjad::Beh,
        form: Form::Initial,
        marks: vec![Mark::Fatha],
    };
    let other_letter = FormedAbjad {
        abjad: Abjad::Teh,
        form: Form::Initial,
        marks: vec![Mark::Fatha],
    };
    let other_form = FormedAbjad {
        abjad: Abjad::Beh,
        form: Form::Medial,
        marks: vec![Mark::Fatha],
    };
    let other_marks = FormedAbjad {
        abjad: Abjad::Beh,
        form: Form::Initial,
        marks: vec![Mark::Fatha, Mark::Shadda],
    };
    assert_eq!(a, same);
    assert_ne!(a, other_letter);
    assert_ne!(a, other_form);
    assert_ne!(a, other_marks);
}

#[test]
fn annotated_order_ignores_letter_and_marks() {
    let a = FormedAbjad {
        abjad: Abjad::Beh,
        form: Form::Medial,
        marks: vec![Mark::Fatha],
    };
    let b = FormedAbjad {
        abjad: Abjad::Qaf,
        form: Form::Medial,
        marks: vec![Mark::Sukun, Mark::Shadda],
    };
    // Same form: order-equal even though letter and marks differ.
    assert_eq!(a.partial_cmp(&b), Some(Ordering::Equal));
    let earlier = FormedAbjad {
        abjad: Abjad::Qaf,
        form: Form::Initial,
        marks: vec![],
    };
    assert_eq!(earlier.partial_cmp(&a), Some(Ordering::Less));
    assert_eq!(a.partial_cmp(&earlier), Some(Ordering::Greater));
}

#[test]
fn dotable_names() {
    let alif = LetterName::Alif {
        top_hamza: true,
        bottom_hamza: false,
    };
    assert!(alif.dotable());
    assert!(LetterName::Kaf.dotable());
    assert!(LetterName::Lam.dotable());
    assert!(LetterName::Meem.dotable());
    assert!(LetterName::Waw.dotable());
    assert!(!LetterName::Beh.dotable());
    assert!(!LetterName::Heh.dotable());
    assert!(!(LetterName::Yeh { maqsura: true }).dotable());
}

#[test]
fn harakat_names_carry_placement() {
    assert_eq!(MarkName::Fatha(true), MarkName::Fatha(true));
    assert_ne!(MarkName::Fatha(true), MarkName::Fatha(false));
    assert_ne!(MarkName::Kasra(false), MarkName::Dumma);
    assert_eq!(MarkName::Sukun, MarkName::Sukun);
}
