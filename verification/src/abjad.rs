//! The letter catalog: the 28 consonantal letters, the diacritic marks,
//! the four cursive connection forms, and the annotated letter that
//! composes one of each with a mark sequence.

use core::cmp::Ordering;
use vstd::prelude::*;
use vstd::std_specs::cmp::PartialEqSpec;
use vstd::std_specs::cmp::PartialOrdSpec;

verus! {

/// A diacritic mark ("haraka") attached to a letter.
#[derive(Debug, Copy, Clone, PartialEq, Eq, Structural, Hash)]
pub enum Mark {
    Fatha,
    Kasra,
    Dumma,
    Shadda,
    Sukun,
}

/// A specific Arabic letter, or "abjad".
#[derive(Debug, Copy, Clone, PartialEq, Eq, Structural, Hash)]
pub enum Abjad {
    Alif,
    Beh,
    Teh,
    Theh,
    Jeem,
    Ha,
    Kha,
    Del,
    Thel,
    Reh,
    Zayn,
    Seen,
    Sheen,
    Saad,
    Daad,
    Ta,
    Tha,
    Ayn,
    Ghayn,
    Feh,
    Qaf,
    Kaf,
    Lam,
    Meem,
    Nun,
    Heh,
    Waw,
    Yeh,
}

/// The 28 letters of the catalog, in their traditional order.
pub open spec fn all_letters_seq() -> Seq<Abjad> {
    seq![
        Abjad::Alif,
        Abjad::Beh,
        Abjad::Teh,
        Abjad::Theh,
        Abjad::Jeem,
        Abjad::Ha,
        Abjad::Kha,
        Abjad::Del,
        Abjad::Thel,
        Abjad::Reh,
        Abjad::Zayn,
        Abjad::Seen,
        Abjad::Sheen,
        Abjad::Saad,
        Abjad::Daad,
        Abjad::Ta,
        Abjad::Tha,
        Abjad::Ayn,
        Abjad::Ghayn,
        Abjad::Feh,
        Abjad::Qaf,
        Abjad::Kaf,
        Abjad::Lam,
        Abjad::Meem,
        Abjad::Nun,
        Abjad::Heh,
        Abjad::Waw,
        Abjad::Yeh,
    ]
}

/// The six letters historically used in biliteral ("dual") root formation.
pub open spec fn dual_letters_seq() -> Seq<Abjad> {
    seq![Abjad::Alif, Abjad::Del, Abjad::Thel, Abjad::Reh, Abjad::Zayn, Abjad::Waw]
}

/// Whether a letter belongs to the dual-root class.
pub open spec fn is_dual_letter(a: Abjad) -> bool {
    matches!(a, Abjad::Alif | Abjad::Del | Abjad::Thel | Abjad::Reh | Abjad::Zayn | Abjad::Waw)
}

/// Whether a letter belongs to the triple-root class: exactly the letters
/// outside the dual-root class, so the two classes partition the catalog
/// by construction.
pub open spec fn is_triple_letter(a: Abjad) -> bool {
    !is_dual_letter(a)
}

/// The catalog as a set.
pub open spec fn all_letters() -> Set<Abjad> {
    all_letters_seq().to_set()
}

/// The dual-root class as a set.
pub open spec fn dual_root_letters() -> Set<Abjad> {
    dual_letters_seq().to_set()
}

/// The triple-root class as a set: the catalog minus the dual-root class.
pub open spec fn triple_root_letters() -> Set<Abjad> {
    all_letters().difference(dual_root_letters())
}

/// The dual-letter list enumerates exactly the dual-root class.
pub proof fn lemma_dual_seq_membership(a: Abjad)
    ensures
        dual_letters_seq().contains(a) <==> is_dual_letter(a),
{
    if is_dual_letter(a) {
        match a {
            Abjad::Alif => assert(dual_letters_seq()[0] == a),
            Abjad::Del => assert(dual_letters_seq()[1] == a),
            Abjad::Thel => assert(dual_letters_seq()[2] == a),
            Abjad::Reh => assert(dual_letters_seq()[3] == a),
            Abjad::Zayn => assert(dual_letters_seq()[4] == a),
            Abjad::Waw => assert(dual_letters_seq()[5] == a),
            _ => assert(false),
        }
    }
    if dual_letters_seq().contains(a) {
        assert(forall|i: int| 0 <= i < dual_letters_seq().len() ==> is_dual_letter(
            #[trigger] dual_letters_seq()[i],
        ));
    }
}

/// Every letter stands in the catalog.
pub proof fn lemma_all_letters_total(a: Abjad)
    ensures
        all_letters().contains(a),
{
    match a {
        Abjad::Alif => assert(all_letters_seq()[0] == a),
        Abjad::Beh => assert(all_letters_seq()[1] == a),
        Abjad::Teh => assert(all_letters_seq()[2] == a),
        Abjad::Theh => assert(all_letters_seq()[3] == a),
        Abjad::Jeem => assert(all_letters_seq()[4] == a),
        Abjad::Ha => assert(all_letters_seq()[5] == a),
        Abjad::Kha => assert(all_letters_seq()[6] == a),
        Abjad::Del => assert(all_letters_seq()[7] == a),
        Abjad::Thel => assert(all_letters_seq()[8] == a),
        Abjad::Reh => assert(all_letters_seq()[9] == a),
        Abjad::Zayn => assert(all_letters_seq()[10] == a),
        Abjad::Seen => assert(all_letters_seq()[11] == a),
        Abjad::Sheen => assert(all_letters_seq()[12] == a),
        Abjad::Saad => assert(all_letters_seq()[13] == a),
        Abjad::Daad => assert(all_letters_seq()[14] == a),
        Abjad::Ta => assert(all_letters_seq()[15] == a),
        Abjad::Tha => assert(all_letters_seq()[16] == a),
        Abjad::Ayn => assert(all_letters_seq()[17] == a),
        Abjad::Ghayn => assert(all_letters_seq()[18] == a),
        Abjad::Feh => assert(all_letters_seq()[19] == a),
        Abjad::Qaf => assert(all_letters_seq()[20] == a),
        Abjad::Kaf => assert(all_letters_seq()[21] == a),
        Abjad::Lam => assert(all_letters_seq()[22] == a),
        Abjad::Meem => assert(all_letters_seq()[23] == a),
        Abjad::Nun => assert(all_letters_seq()[24] == a),
        Abjad::Heh => assert(all_letters_seq()[25] == a),
        Abjad::Waw => assert(all_letters_seq()[26] == a),
        Abjad::Yeh => assert(all_letters_seq()[27] == a),
    }
}

impl Abjad {
    /// The full catalog of 28 distinct letters.
    pub fn all_cases() -> (r: Vec<Abjad>)
        ensures
            r@ == all_letters_seq(),
            r@.to_set() == all_letters(),
            r@.no_duplicates(),
    {
        let mut v: Vec<Abjad> = Vec::new();
        v.push(Abjad::Alif);
        v.push(Abjad::Beh);
        v.push(Abjad::Teh);
        v.push(Abjad::Theh);
        v.push(Abjad::Jeem);
        v.push(Abjad::Ha);
        v.push(Abjad::Kha);
        v.push(Abjad::Del);
        v.push(Abjad::Thel);
        v.push(Abjad::Reh);
        v.push(Abjad::Zayn);
        v.push(Abjad::Seen);
        v.push(Abjad::Sheen);
        v.push(Abjad::Saad);
        v.push(Abjad::Daad);
        v.push(Abjad::Ta);
        v.push(Abjad::Tha);
        v.push(Abjad::Ayn);
        v.push(Abjad::Ghayn);
        v.push(Abjad::Feh);
        v.push(Abjad::Qaf);
        v.push(Abjad::Kaf);
        v.push(Abjad::Lam);
        v.push(Abjad::Meem);
        v.push(Abjad::Nun);
        v.push(Abjad::Heh);
        v.push(Abjad::Waw);
        v.push(Abjad::Yeh);
        proof {
            assert(v@ =~= all_letters_seq());
            assert(v@.no_duplicates());
        }
        v
    }

    /// Returns the letter back when it belongs to the triple-root class,
    /// and nothing otherwise.
    pub fn is_triple(self) -> (r: Option<Abjad>)
        ensures
            r == if is_triple_letter(self) {
                Some(self)
            } else {
                None::<Abjad>
            },
    {
        let triples = Triples::cases();
        proof {
            lemma_non_dual_membership(all_letters_seq(), self);
            lemma_all_letters_total(self);
        }
        if contains_letter(&triples, self) {
            Some(self)
        } else {
            None
        }
    }

    /// Returns the letter back when it belongs to the dual-root class,
    /// and nothing otherwise.
    pub fn is_dual(self) -> (r: Option<Abjad>)
        ensures
            r == if is_dual_letter(self) {
                Some(self)
            } else {
                None::<Abjad>
            },
    {
        let duals = Duals::cases();
        proof {
            lemma_dual_seq_membership(self);
        }
        if contains_letter(&duals, self) {
            Some(self)
        } else {
            None
        }
    }
}

/// Whether a list holds a given letter.
fn contains_letter(list: &Vec<Abjad>, a: Abjad) -> (b: bool)
    ensures
        b == list@.contains(a),
{
    let mut k: usize = 0;
    while k < list.len()
        invariant
            0 <= k <= list.len(),
            forall|i: int| 0 <= i < k ==> list@[i] != a,
        decreases list.len() - k,
    {
        if list[k] == a {
            return true;
        }
        k += 1;
    }
    false
}

/// The subsequence of `s` with the dual-root letters removed.
pub open spec fn non_dual(s: Seq<Abjad>) -> Seq<Abjad>
    decreases s.len(),
{
    if s.len() == 0 {
        Seq::empty()
    } else if is_dual_letter(s.last()) {
        non_dual(s.drop_last())
    } else {
        non_dual(s.drop_last()).push(s.last())
    }
}

/// The 22 triple-root letters, in catalog order: the catalog with the
/// dual-root letters removed.
pub open spec fn triple_letters_seq() -> Seq<Abjad> {
    non_dual(all_letters_seq())
}

/// Removing the dual-root letters keeps exactly the non-dual members.
pub proof fn lemma_non_dual_membership(s: Seq<Abjad>, a: Abjad)
    ensures
        non_dual(s).contains(a) <==> s.contains(a) && !is_dual_letter(a),
    decreases s.len(),
{
    if s.len() > 0 {
        lemma_non_dual_membership(s.drop_last(), a);
        assert(s.contains(a) <==> s.drop_last().contains(a) || s.last() == a) by {
            if s.contains(a) {
                let i = choose|i: int| 0 <= i < s.len() && s[i] == a;
                if i < s.len() - 1 {
                    assert(s.drop_last()[i] == a);
                }
            }
            if s.drop_last().contains(a) {
                let i = choose|i: int| 0 <= i < s.drop_last().len() && s.drop_last()[i] == a;
                assert(s[i] == a);
            }
        }
        if !is_dual_letter(s.last()) && non_dual(s.drop_last()).push(s.last()).contains(a) {
            let front = non_dual(s.drop_last());
            let i = choose|i: int| 0 <= i < front.push(s.last()).len() && front.push(s.last())[i]
                == a;
            if i < front.len() {
                assert(front.contains(a));
            }
        }
        if !is_dual_letter(s.last()) && non_dual(s.drop_last()).contains(a) {
            let front = non_dual(s.drop_last());
            let i = choose|i: int| 0 <= i < front.len() && front[i] == a;
            assert(front.push(s.last())[i] == a);
        }
        if !is_dual_letter(s.last()) && s.last() == a {
            let front = non_dual(s.drop_last());
            assert(front.push(a)[front.len() as int] == a);
        }
    }
}

/// Removing the dual-root letters keeps a duplicate-free list
/// duplicate-free.
proof fn lemma_non_dual_no_duplicates(s: Seq<Abjad>)
    requires
        s.no_duplicates(),
    ensures
        non_dual(s).no_duplicates(),
    decreases s.len(),
{
    if s.len() > 0 {
        assert(s.drop_last().no_duplicates());
        lemma_non_dual_no_duplicates(s.drop_last());
        if !is_dual_letter(s.last()) {
            lemma_non_dual_membership(s.drop_last(), s.last());
            assert(!s.drop_last().contains(s.last())) by {
                if s.drop_last().contains(s.last()) {
                    let i = choose|i: int|
                        0 <= i < s.drop_last().len() && s.drop_last()[i] == s.last();
                    assert(s[i] == s[s.len() - 1]);
                }
            }
            let front = non_dual(s.drop_last());
            assert(forall|i: int, j: int|
                0 <= i < j < front.push(s.last()).len() ==> front.push(s.last())[i] != front.push(
                    s.last(),
                )[j]);
        }
    }
}

/// The marker for the dual-root class of letters.
#[derive(Debug)]
pub struct Duals;

impl Duals {
    /// The six dual-root letters.
    pub fn cases() -> (r: Vec<Abjad>)
        ensures
            r@ == dual_letters_seq(),
            r@.to_set() == dual_root_letters(),
            r@.no_duplicates(),
    {
        let mut v: Vec<Abjad> = Vec::new();
        v.push(Abjad::Alif);
        v.push(Abjad::Del);
        v.push(Abjad::Thel);
        v.push(Abjad::Reh);
        v.push(Abjad::Zayn);
        v.push(Abjad::Waw);
        proof {
            assert(v@ =~= dual_letters_seq());
            assert(v@.no_duplicates());
        }
        v
    }
}

/// The marker for the triple-root class of letters.
#[derive(Debug)]
pub struct Triples;

impl Triples {
    /// The 22 triple-root letters, computed as the catalog minus the
    /// dual-root letters rather than from a second hand-kept list, so the
    /// two classes can never drift apart.
    pub fn cases() -> (r: Vec<Abjad>)
        ensures
            r@ == triple_letters_seq(),
            r@.to_set() == triple_root_letters(),
            r@.no_duplicates(),
    {
        let all = Abjad::all_cases();
        let duals = Duals::cases();
        let mut v: Vec<Abjad> = Vec::new();
        let mut k: usize = 0;
        while k < all.len()
            invariant
                0 <= k <= all.len(),
                all@ == all_letters_seq(),
                duals@ == dual_letters_seq(),
                v@ == non_dual(all_letters_seq().take(k as int)),
            decreases all.len() - k,
        {
            let a = all[k];
            proof {
                lemma_dual_seq_membership(a);
                assert(all_letters_seq().take(k + 1).drop_last() =~= all_letters_seq().take(
                    k as int,
                ));
                assert(all_letters_seq().take(k + 1).last() == a);
            }
            if !contains_letter(&duals, a) {
                v.push(a);
            }
            k += 1;
        }
        proof {
            broadcast use vstd::set::group_set_axioms;

            assert(all_letters_seq().take(28) =~= all_letters_seq());
            lemma_non_dual_no_duplicates(all_letters_seq());
            assert forall|a: Abjad| v@.to_set().contains(a) == triple_root_letters().contains(
                a,
            ) by {
                lemma_non_dual_membership(all_letters_seq(), a);
                lemma_dual_seq_membership(a);
            }
            assert(v@.to_set() =~= triple_root_letters());
        }
        v
    }
}

/// Exactly one of the two root classes holds each letter, and every
/// letter stands in the catalog: the classes partition it.
pub proof fn lemma_root_partition(a: Abjad)
    ensures
        all_letters().contains(a),
        is_dual_letter(a) <==> !is_triple_letter(a),
        dual_root_letters().contains(a) <==> is_dual_letter(a),
        triple_root_letters().contains(a) <==> is_triple_letter(a),
{
    lemma_all_letters_total(a);
    lemma_dual_seq_membership(a);
}

/// The two root classes are disjoint and together give back the whole
/// catalog.
pub proof fn lemma_root_set_identity()
    ensures
        dual_root_letters().union(triple_root_letters()) == all_letters(),
        dual_root_letters().intersect(triple_root_letters()) == Set::<Abjad>::empty(),
{
    assert forall|a: Abjad| dual_root_letters().contains(a) implies all_letters().contains(a) by {
        lemma_root_partition(a);
    }
    assert(dual_root_letters().union(triple_root_letters()) =~= all_letters());
    assert(dual_root_letters().intersect(triple_root_letters()) =~= Set::<Abjad>::empty());
}

/// The cursive connection form a letter takes inside a written word.
/// The four values carry a fixed total order, Isolated < Initial <
/// Medial < Final, so letters sort by how embedded they stand in the
/// word rather than by identity.
#[derive(Debug, Copy, Clone, PartialEq, Eq, Structural, Hash, Ord)]
pub enum Form {
    /// Stands on its own; connects on neither side.
    Isolated,
    /// Opens a connected run; connects only into the next letter.
    Initial,
    /// Stands inside a connected run; connects on both sides.
    Medial,
    /// Closes a connected run; connects only to the preceding letter.
    Final,
}

/// Position of a form in the canonical order.
pub open spec fn form_rank(f: Form) -> int {
    match f {
        Form::Isolated => 0,
        Form::Initial => 1,
        Form::Medial => 2,
        Form::Final => 3,
    }
}

impl Form {
    /// Position of this form in the canonical order, as a machine value.
    pub fn rank(&self) -> (r: u8)
        ensures
            r as int == form_rank(*self),
    {
        match self {
            Form::Isolated => 0,
            Form::Initial => 1,
            Form::Medial => 2,
            Form::Final => 3,
        }
    }
}

impl vstd::std_specs::cmp::PartialOrdSpecImpl for Form {
    open spec fn obeys_partial_cmp_spec() -> bool {
        true
    }

    open spec fn partial_cmp_spec(&self, other: &Form) -> Option<Ordering> {
        if form_rank(*self) < form_rank(*other) {
            Some(Ordering::Less)
        } else if form_rank(*self) == form_rank(*other) {
            Some(Ordering::Equal)
        } else {
            Some(Ordering::Greater)
        }
    }
}

impl PartialOrd for Form {
    fn partial_cmp(&self, other: &Form) -> (r: Option<Ordering>) {
        let a = self.rank();
        let b = other.rank();
        if a < b {
            Some(Ordering::Less)
        } else if a == b {
            Some(Ordering::Equal)
        } else {
            Some(Ordering::Greater)
        }
    }
}

/// The form order is total over exactly four values, and two forms
/// compare by their canonical ranks, so Isolated < Initial < Medial <
/// Final holds for every pair.
pub proof fn lemma_form_order(a: Form, b: Form)
    ensures
        a is Isolated || a is Initial || a is Medial || a is Final,
        a.partial_cmp_spec(&b) is Some,
        a.partial_cmp_spec(&b) == Some(Ordering::Less) <==> form_rank(a) < form_rank(b),
        a.partial_cmp_spec(&b) == Some(Ordering::Equal) <==> form_rank(a) == form_rank(b),
        a.partial_cmp_spec(&b) == Some(Ordering::Greater) <==> form_rank(a) > form_rank(b),
{
}

/// An annotated letter: which letter was written, the connection form it
/// was written in, and the diacritic marks it carries, in the order they
/// were encountered.
///
/// Equality is structural over all three fields. Ordering, by design,
/// goes by the `form` field alone, so that comparing annotated letters
/// compares their structural position in the word; do not "repair" it to
/// a lexicographic order over all fields.
#[derive(Debug, Eq, Hash)]
pub struct FormedAbjad {
    pub abjad: Abjad,
    pub form: Form,
    pub marks: Vec<Mark>,
}

impl PartialEq for FormedAbjad {
    fn eq(&self, other: &Self) -> (r: bool) {
        self.abjad == other.abjad && self.form == other.form && marks_equal(
            &self.marks,
            &other.marks,
        )
    }
}

impl vstd::std_specs::cmp::PartialEqSpecImpl for FormedAbjad {
    open spec fn obeys_eq_spec() -> bool {
        true
    }

    open spec fn eq_spec(&self, other: &Self) -> bool {
        self.abjad == other.abjad && self.form == other.form && self.marks@ == other.marks@
    }
}

impl vstd::std_specs::cmp::PartialOrdSpecImpl for FormedAbjad {
    open spec fn obeys_partial_cmp_spec() -> bool {
        true
    }

    open spec fn partial_cmp_spec(&self, other: &Self) -> Option<Ordering> {
        vstd::std_specs::cmp::PartialOrdSpec::partial_cmp_spec(&self.form, &other.form)
    }
}

impl PartialOrd for FormedAbjad {
    fn partial_cmp(&self, other: &Self) -> (r: Option<Ordering>) {
        self.form.partial_cmp(&other.form)
    }
}

/// Whether two mark lists hold the same marks in the same order.
fn marks_equal(a: &Vec<Mark>, b: &Vec<Mark>) -> (r: bool)
    ensures
        r == (a@ == b@),
{
    if a.len() != b.len() {
        proof {
            assert(a@ != b@);
        }
        return false;
    }
    let mut k: usize = 0;
    while k < a.len()
        invariant
            0 <= k <= a.len(),
            a.len() == b.len(),
            forall|i: int| 0 <= i < k ==> a@[i] == b@[i],
        decreases a.len() - k,
    {
        if a[k] != b[k] {
            proof {
                assert(a@ != b@);
            }
            return false;
        }
        k += 1;
    }
    proof {
        assert(a@ =~= b@);
    }
    true
}

/// Two annotated letters are equal exactly when letter, form and the
/// full mark sequence all match; changing any one field breaks equality.
pub proof fn lemma_annotated_equality(a: FormedAbjad, b: FormedAbjad)
    ensures
        a.eq_spec(&b) <==> (a.abjad == b.abjad && a.form == b.form && a.marks@ == b.marks@),
{
}

/// Ordering of annotated letters goes by the form alone: two annotated
/// letters with equal forms compare as order-equal whatever their
/// letters or marks.
pub proof fn lemma_order_ignores_letter_and_marks(a: FormedAbjad, b: FormedAbjad)
    requires
        a.form == b.form,
    ensures
        a.partial_cmp_spec(&b) == Some(Ordering::Equal),
{
}

} // verus!
