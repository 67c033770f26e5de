//! When two names are the same name: letters count without regard to case.

use vstd::prelude::*;

verus! {

/// The octet with an ASCII capital letter lowered, as names are compared.
pub open spec fn folded(b: u8) -> u8 {
    if 0x41 <= b <= 0x5a {
        (b + 0x20) as u8
    } else {
        b
    }
}

/// Two labels are the same label when they differ at most in the case of
/// their ASCII letters.
pub open spec fn same_label(a: Seq<u8>, b: Seq<u8>) -> bool {
    &&& a.len() == b.len()
    &&& forall|i: int| #![trigger a[i]] 0 <= i < a.len() ==> folded(a[i]) == folded(b[i])
}

/// Two names are the same name when they have the same labels in the same
/// order.
pub open spec fn same_name(a: Seq<Seq<u8>>, b: Seq<Seq<u8>>) -> bool {
    &&& a.len() == b.len()
    &&& forall|i: int| #![trigger a[i]] 0 <= i < a.len() ==> same_label(a[i], b[i])
}

/// A label in the form in which names are compared: each octet folded.
pub open spec fn normal_label(label: Seq<u8>) -> Seq<u8> {
    label.map_values(|b: u8| folded(b))
}

/// The labels of a name in the form in which names are compared and hashed.
pub open spec fn normal_form(labels: Seq<Seq<u8>>) -> Seq<Seq<u8>> {
    labels.map_values(|label: Seq<u8>| normal_label(label))
}

/// Two names are the same name exactly when their normal forms are equal.
pub proof fn lemma_same_name_by_normal_form(a: Seq<Seq<u8>>, b: Seq<Seq<u8>>)
    ensures
        same_name(a, b) <==> normal_form(a) == normal_form(b),
{
    if same_name(a, b) {
        assert forall|i: int| 0 <= i < a.len() implies normal_form(a)[i] == normal_form(b)[i] by {
            assert(same_label(a[i], b[i]));
            assert(normal_label(a[i]) =~= normal_label(b[i]));
        }
        assert(normal_form(a) =~= normal_form(b));
    }
    if normal_form(a) == normal_form(b) {
        assert(a.len() == normal_form(a).len());
        assert(b.len() == normal_form(b).len());
        assert forall|i: int| #![trigger a[i]] 0 <= i < a.len() implies same_label(a[i], b[i]) by {
            assert(normal_form(a)[i] == normal_label(a[i]));
            assert(normal_form(b)[i] == normal_label(b[i]));
            assert(a[i].len() == normal_label(a[i]).len());
            assert(b[i].len() == normal_label(b[i]).len());
            assert forall|j: int| #![trigger a[i][j]] 0 <= j < a[i].len() implies folded(a[i][j])
                == folded(b[i][j]) by {
                assert(normal_label(a[i])[j] == folded(a[i][j]));
                assert(normal_label(b[i])[j] == folded(b[i][j]));
            }
        }
    }
}

/// Being the same name is an equivalence.
pub proof fn lemma_same_name_is_equivalence(a: Seq<Seq<u8>>, b: Seq<Seq<u8>>, c: Seq<Seq<u8>>)
    ensures
        same_name(a, a),
        same_name(a, b) ==> same_name(b, a),
        same_name(a, b) && same_name(b, c) ==> same_name(a, c),
{
    if same_name(a, b) {
        assert forall|i: int| #![trigger b[i]] 0 <= i < b.len() implies same_label(b[i], a[i]) by {
            assert(same_label(a[i], b[i]));
            assert forall|j: int| #![trigger b[i][j]] 0 <= j < b[i].len() implies folded(b[i][j])
                == folded(a[i][j]) by {
                assert(folded(a[i][j]) == folded(b[i][j]));
            }
        }
        if same_name(b, c) {
            assert forall|i: int| #![trigger a[i]] 0 <= i < a.len() implies same_label(
                a[i],
                c[i],
            ) by {
                assert(same_label(a[i], b[i]));
                assert(same_label(b[i], c[i]));
                assert forall|j: int| #![trigger a[i][j]] 0 <= j < a[i].len() implies folded(
                    a[i][j],
                ) == folded(c[i][j]) by {
                    assert(folded(a[i][j]) == folded(b[i][j]));
                    assert(folded(b[i][j]) == folded(c[i][j]));
                }
            }
        }
    }
}

/// Lowers an ASCII capital letter and leaves every other octet as it is.
pub fn fold_octet(b: u8) -> (low: u8)
    ensures
        low == folded(b),
{
    if 0x41 <= b && b <= 0x5a {
        b + 0x20
    } else {
        b
    }
}

/// Whether `a` and `b` are the same label.
pub fn labels_match(a: &Vec<u8>, b: &Vec<u8>) -> (same: bool)
    ensures
        same == same_label(a@, b@),
{
    if a.len() != b.len() {
        return false;
    }
    let mut i: usize = 0;
    while i < a.len()
        invariant
            i <= a.len(),
            a.len() == b.len(),
            forall|k: int| #![trigger a@[k]] 0 <= k < i ==> folded(a@[k]) == folded(b@[k]),
        decreases a.len() - i,
    {
        if fold_octet(a[i]) != fold_octet(b[i]) {
            return false;
        }
        i += 1;
    }
    true
}

/// Whether `a` and `b` are the same name.
pub fn names_match(a: &Vec<Vec<u8>>, b: &Vec<Vec<u8>>) -> (same: bool)
    ensures
        same == same_name(a.deep_view(), b.deep_view()),
{
    let ghost left = a.deep_view();
    let ghost right = b.deep_view();
    if a.len() != b.len() {
        return false;
    }
    let mut i: usize = 0;
    while i < a.len()
        invariant
            i <= a.len(),
            a.len() == b.len(),
            left == a.deep_view(),
            right == b.deep_view(),
            left.len() == a.len(),
            right.len() == b.len(),
            forall|k: int| #![trigger left[k]] 0 <= k < i ==> same_label(left[k], right[k]),
        decreases a.len() - i,
    {
        assert(left[i as int] =~= a[i as int]@);
        assert(right[i as int] =~= b[i as int]@);
        if !labels_match(&a[i], &b[i]) {
            return false;
        }
        i += 1;
    }
    true
}

/// Folds each octet of each label.
pub fn fold_labels(labels: &Vec<Vec<u8>>) -> (normal: Vec<Vec<u8>>)
    ensures
        normal.deep_view() == normal_form(labels.deep_view()),
{
    let ghost given = labels.deep_view();
    let mut normal: Vec<Vec<u8>> = Vec::new();
    let mut i: usize = 0;
    while i < labels.len()
        invariant
            i <= labels.len(),
            given == labels.deep_view(),
            given.len() == labels.len(),
            normal.len() == i,
            forall|k: int| 0 <= k < i ==> (#[trigger] normal[k])@ == normal_label(given[k]),
        decreases labels.len() - i,
    {
        let label = &labels[i];
        assert(given[i as int] =~= label@);
        let mut low: Vec<u8> = Vec::new();
        let mut j: usize = 0;
        while j < label.len()
            invariant
                j <= label.len(),
                low.len() == j,
                forall|k: int| 0 <= k < j ==> #[trigger] low[k] == folded(label[k]),
            decreases label.len() - j,
        {
            low.push(fold_octet(label[j]));
            j += 1;
        }
        assert(low@ =~= normal_label(label@));
        normal.push(low);
        i += 1;
    }
    assert forall|k: int| 0 <= k < normal.len() implies #[trigger] normal.deep_view()[k]
        == normal_form(given)[k] by {
        assert(normal.deep_view()[k] =~= normal[k]@);
    }
    assert(normal.deep_view() =~= normal_form(given));
    normal
}

} // verus!
