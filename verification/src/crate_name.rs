//! Package names, compared without regard to the `-` / `_` distinction.

use std::cmp::Ordering;
use vstd::prelude::*;
use vstd::std_specs::cmp::PartialEqSpecImpl;
use vstd::std_specs::cmp::PartialOrdSpec;
use vstd::std_specs::cmp::PartialOrdSpecImpl;
use vstd::std_specs::convert::FromSpecImpl;
use vstd::string::*;
use crate::text::chars_of;

verus! {

/// The character that stands for `c` when separators are ignored: `-` counts
/// as `_`, every other character as itself.
pub open spec fn fold_separator(c: char) -> char {
    if c == '-' {
        '_'
    } else {
        c
    }
}

/// `a` with every `-` replaced by `_`.
pub open spec fn canonical_form(a: Seq<char>) -> Seq<char> {
    Seq::new(a.len(), |i: int| fold_separator(a[i]))
}

/// Two names are the same package name when they have the same length and
/// agree position by position once `-` and `_` are identified.
pub open spec fn same_ignoring_separators(a: Seq<char>, b: Seq<char>) -> bool {
    &&& a.len() == b.len()
    &&& forall|i: int| 0 <= i < a.len() ==> fold_separator(#[trigger] a[i]) == fold_separator(b[i])
}

/// `a` comes strictly before `b` in the ordinary order of strings: at the
/// first position where they differ `a` has the smaller character, or `a` is
/// a proper prefix of `b`.
pub open spec fn precedes(a: Seq<char>, b: Seq<char>) -> bool {
    exists|k: int|
        {
            &&& 0 <= k <= a.len()
            &&& k <= b.len()
            &&& a.take(k) == #[trigger] b.take(k)
            &&& if k == a.len() {
                k < b.len()
            } else {
                k < b.len() && a[k] < b[k]
            }
        }
}

/// Names are equal-ignoring-separators exactly when their canonical forms
/// are the same sequence, so a map keyed by the canonical form cannot keep
/// `foo-bar` and `foo_bar` apart.
pub proof fn lemma_canonical_form_decides_equality(a: Seq<char>, b: Seq<char>)
    ensures
        same_ignoring_separators(a, b) <==> canonical_form(a) == canonical_form(b),
{
    if same_ignoring_separators(a, b) {
        assert(canonical_form(a) =~= canonical_form(b));
    }
    if canonical_form(a) == canonical_form(b) {
        assert(canonical_form(a).len() == a.len());
        assert(canonical_form(b).len() == b.len());
        assert forall|i: int| 0 <= i < a.len() implies fold_separator(#[trigger] a[i])
            == fold_separator(b[i]) by {
            assert(canonical_form(a)[i] == fold_separator(a[i]));
            assert(canonical_form(b)[i] == fold_separator(b[i]));
        }
    }
}

/// Equality ignoring separators is reflexive, symmetric and transitive.
pub proof fn lemma_same_ignoring_separators_is_equivalence(
    a: Seq<char>,
    b: Seq<char>,
    c: Seq<char>,
)
    ensures
        same_ignoring_separators(a, a),
        same_ignoring_separators(a, b) ==> same_ignoring_separators(b, a),
        same_ignoring_separators(a, b) && same_ignoring_separators(b, c)
            ==> same_ignoring_separators(a, c),
{
    lemma_canonical_form_decides_equality(a, a);
    lemma_canonical_form_decides_equality(a, b);
    lemma_canonical_form_decides_equality(b, a);
    lemma_canonical_form_decides_equality(b, c);
    lemma_canonical_form_decides_equality(a, c);
}

/// No string comes before itself.
pub proof fn lemma_precedes_irreflexive(a: Seq<char>)
    ensures
        !precedes(a, a),
{
}

/// A prefix of a prefix that two strings share is shared as well.
proof fn lemma_shared_prefix(a: Seq<char>, b: Seq<char>, k: int, j: int)
    requires
        0 <= j <= k <= a.len(),
        k <= b.len(),
        a.take(k) == b.take(k),
    ensures
        a.take(j) == b.take(j),
        j < k ==> a[j] == b[j],
{
    assert(a.take(j) =~= a.take(k).take(j));
    assert(b.take(j) =~= b.take(k).take(j));
    if j < k {
        assert(a.take(k)[j] == a[j]);
        assert(b.take(k)[j] == b[j]);
    }
}

/// The order of strings is transitive.
pub proof fn lemma_precedes_transitive(a: Seq<char>, b: Seq<char>, c: Seq<char>)
    requires
        precedes(a, b),
        precedes(b, c),
    ensures
        precedes(a, c),
{
    let k1 = choose|k: int|
        {
            &&& 0 <= k <= a.len()
            &&& k <= b.len()
            &&& a.take(k) == #[trigger] b.take(k)
            &&& if k == a.len() {
                k < b.len()
            } else {
                k < b.len() && a[k] < b[k]
            }
        };
    let k2 = choose|k: int|
        {
            &&& 0 <= k <= b.len()
            &&& k <= c.len()
            &&& b.take(k) == #[trigger] c.take(k)
            &&& if k == b.len() {
                k < c.len()
            } else {
                k < c.len() && b[k] < c[k]
            }
        };
    if k1 <= k2 {
        lemma_shared_prefix(b, c, k2, k1);
        assert(a.take(k1) == c.take(k1));
    } else {
        lemma_shared_prefix(a, b, k1, k2);
        assert(a.take(k2) == c.take(k2));
    }
}

/// Of two strings that share their first `k` characters and are not the
/// same, one comes before the other.
proof fn lemma_precedes_total_from(a: Seq<char>, b: Seq<char>, k: int)
    requires
        a != b,
        0 <= k <= a.len(),
        k <= b.len(),
        a.take(k) == b.take(k),
    ensures
        precedes(a, b) || precedes(b, a),
    decreases a.len() - k,
{
    if k == a.len() || k == b.len() {
        if a.len() == b.len() {
            assert(a.take(k) =~= a);
            assert(b.take(k) =~= b);
        } else if k == a.len() {
            assert(b.take(k) == b.take(k));
        } else {
            assert(a.take(k) == a.take(k));
        }
    } else if a[k] != b[k] {
        if a[k] < b[k] {
            assert(b.take(k) == b.take(k));
        } else {
            assert(a.take(k) == a.take(k));
        }
    } else {
        assert(a.take(k + 1) =~= a.take(k).push(a[k]));
        assert(b.take(k + 1) =~= b.take(k).push(b[k]));
        lemma_precedes_total_from(a, b, k + 1);
    }
}

/// Of two different strings one comes before the other.
pub proof fn lemma_precedes_total(a: Seq<char>, b: Seq<char>)
    requires
        a != b,
    ensures
        precedes(a, b) || precedes(b, a),
{
    assert(a.take(0) =~= b.take(0));
    lemma_precedes_total_from(a, b, 0);
}

/// Of two strings at most one comes before the other.
pub proof fn lemma_precedes_asymmetric(a: Seq<char>, b: Seq<char>)
    requires
        precedes(a, b),
    ensures
        !precedes(b, a),
{
    if precedes(b, a) {
        lemma_precedes_transitive(a, b, a);
        lemma_precedes_irreflexive(a);
    }
}

/// Compares two strings, ignoring the difference between `-` and `_`.
pub fn eq_ignoring_dash_underscore(a: &str, b: &str) -> (r: bool)
    ensures
        r == same_ignoring_separators(a@, b@),
{
    let xs = chars_of(a);
    let ys = chars_of(b);
    if xs.len() != ys.len() {
        return false;
    }
    let mut i: usize = 0;
    while i < xs.len()
        invariant
            xs@ == a@,
            ys@ == b@,
            xs.len() == ys.len(),
            i <= xs.len(),
            forall|j: int|
                0 <= j < i ==> fold_separator(#[trigger] xs@[j]) == fold_separator(ys@[j]),
        decreases xs.len() - i,
    {
        let x = xs[i];
        let y = ys[i];
        let same = (x == '_' && y == '-') || (x == '-' && y == '_') || x == y;
        if !same {
            assert(fold_separator(a@[i as int]) != fold_separator(b@[i as int]));
            return false;
        }
        i += 1;
    }
    true
}

/// Position `k0` is the first at which `a` and `b` part; if `a` does not
/// precede `b` there, it does not precede it at all.
proof fn lemma_first_difference_decides(a: Seq<char>, b: Seq<char>, k0: int)
    requires
        0 <= k0 <= a.len(),
        k0 <= b.len(),
        a.take(k0) == b.take(k0),
        if k0 == a.len() {
            k0 == b.len()
        } else {
            k0 == b.len() || (a[k0] != b[k0] && !(a[k0] < b[k0]))
        },
    ensures
        !precedes(a, b),
{
    assert forall|k: int|
        !{
            &&& 0 <= k <= a.len()
            &&& k <= b.len()
            &&& a.take(k) == #[trigger] b.take(k)
            &&& if k == a.len() {
                k < b.len()
            } else {
                k < b.len() && a[k] < b[k]
            }
        } by {
        if 0 <= k <= a.len() && k <= b.len() && a.take(k) == b.take(k) {
            if k > k0 {
                if k0 < a.len() && k0 < b.len() {
                    assert(a.take(k)[k0] == a[k0]);
                    assert(b.take(k)[k0] == b[k0]);
                }
            } else if k < k0 {
                assert(a.take(k0)[k] == a[k]);
                assert(b.take(k0)[k] == b[k]);
            }
        }
    }
}

/// Tells whether `a` comes strictly before `b` in the ordinary order of
/// strings.
pub fn str_precedes(a: &str, b: &str) -> (r: bool)
    ensures
        r == precedes(a@, b@),
{
    let xs = chars_of(a);
    let ys = chars_of(b);
    let mut i: usize = 0;
    while i < xs.len() && i < ys.len()
        invariant
            xs@ == a@,
            ys@ == b@,
            i <= xs.len(),
            i <= ys.len(),
            a@.take(i as int) == b@.take(i as int),
        decreases xs.len() - i,
    {
        if xs[i] != ys[i] {
            let r = xs[i] < ys[i];
            proof {
                if r {
                    assert(b@.take(i as int) == b@.take(i as int));
                } else {
                    lemma_first_difference_decides(a@, b@, i as int);
                }
            }
            return r;
        }
        i += 1;
        assert(a@.take(i as int) == a@.take(i - 1).push(a@[i - 1]));
        assert(b@.take(i as int) == b@.take(i - 1).push(b@[i - 1]));
    }
    let r = i < ys.len();
    proof {
        if r {
            assert(b@.take(i as int) == b@.take(i as int));
        } else {
            lemma_first_difference_decides(a@, b@, i as int);
        }
    }
    r
}

/// A package name. Two names that differ only in writing `-` for `_` are the
/// same name.
#[derive(Debug)]
pub struct CrateName(pub String);

impl View for CrateName {
    type V = Seq<char>;

    open spec fn view(&self) -> Seq<char> {
        self.0@
    }
}

impl CrateName {
    /// The name written as `name`.
    pub fn new(name: &str) -> (r: CrateName)
        ensures
            r@ == name@,
    {
        CrateName(String::from_str(name))
    }

    /// An owned copy of the name, spelled as this one is.
    pub fn to_static(&self) -> (r: CrateName)
        ensures
            r@ == self@,
    {
        CrateName(self.0.clone())
    }

    /// The name as it was written.
    pub fn as_str(&self) -> (s: &str)
        ensures
            s@ == self@,
    {
        self.0.as_str()
    }

    /// The name as it was written, as an owned string.
    pub fn to_string(&self) -> (s: String)
        ensures
            s@ == self@,
    {
        self.0.clone()
    }

    /// The key under which the name is hashed and stored: the name with
    /// every `-` written as `_`. Equal names have equal keys, and only they.
    pub fn canonical_key(&self) -> (k: String)
        ensures
            k@ == canonical_form(self@),
            forall|other: CrateName|
                same_ignoring_separators(self@, other@) <==> k@ == canonical_form(other@),
    {
        let chars = chars_of(self.0.as_str());
        let mut k = String::new();
        let mut i: usize = 0;
        while i < chars.len()
            invariant
                i <= chars.len(),
                chars@ == self@,
                k@ == canonical_form(self@).take(i as int),
            decreases chars.len() - i,
        {
            let c = chars[i];
            if c == '-' {
                k.push('_');
            } else {
                k.push(c);
            }
            i += 1;
            assert(canonical_form(self@).take(i as int) == canonical_form(self@).take(i - 1).push(
                canonical_form(self@)[i - 1],
            ));
        }
        assert(k@ == canonical_form(self@));
        assert forall|other: CrateName|
            same_ignoring_separators(self@, other@) <==> k@ == canonical_form(other@) by {
            lemma_canonical_form_decides_equality(self@, other@);
        }
        k
    }
}

impl Clone for CrateName {
    fn clone(&self) -> (r: Self)
        ensures
            r@ == self@,
    {
        CrateName(self.0.clone())
    }
}

impl PartialEq for CrateName {
    fn eq(&self, other: &Self) -> (r: bool) {
        eq_ignoring_dash_underscore(self.0.as_str(), other.0.as_str())
    }
}

impl Eq for CrateName {

}

impl PartialEqSpecImpl for CrateName {
    open spec fn obeys_eq_spec() -> bool {
        true
    }

    open spec fn eq_spec(&self, other: &CrateName) -> bool {
        same_ignoring_separators(self@, other@)
    }
}

impl PartialOrd for CrateName {
    fn partial_cmp(&self, other: &Self) -> (r: Option<Ordering>) {
        if eq_ignoring_dash_underscore(self.0.as_str(), other.0.as_str()) {
            Some(Ordering::Equal)
        } else if str_precedes(self.0.as_str(), other.0.as_str()) {
            Some(Ordering::Less)
        } else {
            Some(Ordering::Greater)
        }
    }
}

impl PartialOrdSpecImpl for CrateName {
    open spec fn obeys_partial_cmp_spec() -> bool {
        true
    }

    open spec fn partial_cmp_spec(&self, other: &CrateName) -> Option<Ordering> {
        if same_ignoring_separators(self@, other@) {
            Some(Ordering::Equal)
        } else if precedes(self@, other@) {
            Some(Ordering::Less)
        } else {
            Some(Ordering::Greater)
        }
    }
}

/// Names that are not the same are ordered as their spellings are: the one
/// is less whose spelling comes before the other's, and then the other is
/// greater.
pub proof fn lemma_order_is_string_order(a: CrateName, b: CrateName)
    requires
        !same_ignoring_separators(a@, b@),
    ensures
        PartialOrdSpec::partial_cmp_spec(&a, &b) == Some(Ordering::Less) <==> precedes(a@, b@),
        PartialOrdSpec::partial_cmp_spec(&a, &b) == Some(Ordering::Greater) <==> precedes(
            b@,
            a@,
        ),
        PartialOrdSpec::partial_cmp_spec(&a, &b) != Some(Ordering::Equal),
{
    lemma_same_ignoring_separators_is_equivalence(a@, a@, a@);
    lemma_precedes_total(a@, b@);
    if precedes(a@, b@) {
        lemma_precedes_asymmetric(a@, b@);
    }
}

impl From<String> for CrateName {
    fn from(value: String) -> (r: Self) {
        CrateName(value)
    }
}

impl FromSpecImpl<String> for CrateName {
    open spec fn obeys_from_spec() -> bool {
        true
    }

    open spec fn from_spec(value: String) -> Self {
        CrateName(value)
    }
}

} // verus!
