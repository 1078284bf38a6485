//! The order in which definitions are grouped for display: by kind, then by
//! continent, then by terrain. Number, colour and coast play no part.

use core::cmp::Ordering;
use vstd::prelude::*;
use vstd::utf8::*;
use crate::definition::{Definition, DefinitionView};
use crate::kind::DefinitionKind;

verus! {

/// What a definition is ordered by. The terrain stands here as its UTF-8
/// bytes, which is how text compares.
pub struct SortKey {
    pub kind: DefinitionKind,
    pub continent: u16,
    pub terrain: Seq<u8>,
}

/// `a` comes before `b` when the two are compared byte by byte from the
/// left: at the first difference `a` has the smaller byte, or `a` ends
/// there and `b` goes on.
pub open spec fn bytes_less(a: Seq<u8>, b: Seq<u8>) -> bool
    decreases a.len(),
{
    if b.len() == 0 {
        false
    } else if a.len() == 0 {
        true
    } else if a[0] != b[0] {
        a[0] < b[0]
    } else {
        bytes_less(a.drop_first(), b.drop_first())
    }
}

/// `a` comes before `b`: by kind first, by continent among equal kinds, by
/// terrain among equal kinds and continents.
pub open spec fn key_less(a: SortKey, b: SortKey) -> bool {
    ||| a.kind.rank() < b.kind.rank()
    ||| a.kind == b.kind && a.continent < b.continent
    ||| a.kind == b.kind && a.continent == b.continent && bytes_less(a.terrain, b.terrain)
}

impl DefinitionView {
    /// The part of the record that the order looks at.
    pub open spec fn sort_key(self) -> SortKey {
        SortKey { kind: self.kind, continent: self.continent, terrain: encode_utf8(self.terrain) }
    }

    /// The record comes strictly before `other`.
    pub open spec fn precedes(self, other: DefinitionView) -> bool {
        key_less(self.sort_key(), other.sort_key())
    }

    /// The record and `other` have the same kind, continent and terrain.
    pub open spec fn same_group(self, other: DefinitionView) -> bool {
        self.kind == other.kind && self.continent == other.continent && self.terrain
            == other.terrain
    }

    /// How the record stands to `other` in the order.
    pub open spec fn compare(self, other: DefinitionView) -> Ordering {
        if self.precedes(other) {
            Ordering::Less
        } else if other.precedes(self) {
            Ordering::Greater
        } else {
            Ordering::Equal
        }
    }
}

/// Behind a common prefix, two texts compare as their remainders do.
pub proof fn lemma_common_prefix(a: Seq<u8>, b: Seq<u8>, k: int)
    requires
        0 <= k <= a.len(),
        k <= b.len(),
        a.take(k) == b.take(k),
    ensures
        bytes_less(a, b) == bytes_less(a.skip(k), b.skip(k)),
    decreases k,
{
    if k == 0 {
        assert(a.skip(0) =~= a);
        assert(b.skip(0) =~= b);
    } else {
        assert(a[0] == a.take(k)[0] && b[0] == b.take(k)[0]);
        let x = a.drop_first();
        let y = b.drop_first();
        let xs = x.take(k - 1);
        let ys = y.take(k - 1);
        assert(xs =~= ys) by {
            assert forall|i: int| 0 <= i < k - 1 implies #[trigger] xs[i] == ys[i] by {
                assert(xs[i] == a[i + 1] && a[i + 1] == a.take(k)[i + 1]);
                assert(ys[i] == b[i + 1] && b[i + 1] == b.take(k)[i + 1]);
            }
        }
        lemma_common_prefix(x, y, k - 1);
        assert(x.skip(k - 1) =~= a.skip(k));
        assert(y.skip(k - 1) =~= b.skip(k));
    }
}

/// No text comes before itself.
pub proof fn lemma_bytes_irreflexive(a: Seq<u8>)
    ensures
        !bytes_less(a, a),
    decreases a.len(),
{
    if a.len() > 0 {
        lemma_bytes_irreflexive(a.drop_first());
    }
}

/// Of two texts, at most one comes before the other.
pub proof fn lemma_bytes_asymmetric(a: Seq<u8>, b: Seq<u8>)
    ensures
        !(bytes_less(a, b) && bytes_less(b, a)),
    decreases a.len(),
{
    if a.len() > 0 && b.len() > 0 && a[0] == b[0] {
        lemma_bytes_asymmetric(a.drop_first(), b.drop_first());
    }
}

/// What comes before a text comes before everything behind that text.
pub proof fn lemma_bytes_transitive(a: Seq<u8>, b: Seq<u8>, c: Seq<u8>)
    requires
        bytes_less(a, b),
        bytes_less(b, c),
    ensures
        bytes_less(a, c),
    decreases a.len(),
{
    if a.len() > 0 && b.len() > 0 && c.len() > 0 && a[0] == b[0] && b[0] == c[0] {
        lemma_bytes_transitive(a.drop_first(), b.drop_first(), c.drop_first());
    }
}

/// Two texts are the same, or one of them comes before the other.
pub proof fn lemma_bytes_total(a: Seq<u8>, b: Seq<u8>)
    ensures
        a == b || bytes_less(a, b) || bytes_less(b, a),
    decreases a.len(),
{
    if a.len() > 0 && b.len() > 0 && a[0] == b[0] {
        lemma_bytes_total(a.drop_first(), b.drop_first());
        if a.drop_first() == b.drop_first() {
            assert(a =~= seq![a[0]] + a.drop_first());
            assert(b =~= seq![b[0]] + b.drop_first());
        }
    } else if a.len() == 0 && b.len() == 0 {
        assert(a =~= b);
    }
}

/// No record comes before itself.
pub proof fn lemma_order_irreflexive(a: DefinitionView)
    ensures
        !a.precedes(a),
{
    lemma_bytes_irreflexive(a.sort_key().terrain);
}

/// Of two records, at most one comes before the other.
pub proof fn lemma_order_antisymmetric(a: DefinitionView, b: DefinitionView)
    ensures
        !(a.precedes(b) && b.precedes(a)),
{
    lemma_bytes_asymmetric(a.sort_key().terrain, b.sort_key().terrain);
}

/// What comes before a record comes before everything behind that record.
pub proof fn lemma_order_transitive(a: DefinitionView, b: DefinitionView, c: DefinitionView)
    requires
        a.precedes(b),
        b.precedes(c),
    ensures
        a.precedes(c),
{
    if a.kind == b.kind && b.kind == c.kind && a.continent == b.continent && b.continent
        == c.continent {
        lemma_bytes_transitive(a.sort_key().terrain, b.sort_key().terrain, c.sort_key().terrain);
    }
}

/// Of any two records exactly one holds: the first comes before the second,
/// the second before the first, or they agree in kind, continent and
/// terrain.
pub proof fn lemma_order_total(a: DefinitionView, b: DefinitionView)
    ensures
        a.precedes(b) || b.precedes(a) || a.same_group(b),
        !(a.precedes(b) && b.precedes(a)),
        a.same_group(b) ==> !a.precedes(b) && !b.precedes(a),
{
    lemma_bytes_total(a.sort_key().terrain, b.sort_key().terrain);
    lemma_bytes_asymmetric(a.sort_key().terrain, b.sort_key().terrain);
    lemma_bytes_irreflexive(a.sort_key().terrain);
    encode_utf8_decode_utf8(a.terrain);
    encode_utf8_decode_utf8(b.terrain);
}

/// The order looks at kind, continent and terrain only: records that agree
/// in these stand alike to every other record, whatever their number,
/// colour and coast.
pub proof fn lemma_order_ignores_the_rest(a: DefinitionView, b: DefinitionView, c: DefinitionView)
    requires
        a.same_group(b),
    ensures
        a.compare(b) == Ordering::Equal,
        a.precedes(c) == b.precedes(c),
        c.precedes(a) == c.precedes(b),
        a.compare(c) == b.compare(c),
{
    lemma_order_total(a, b);
}

/// The length of the longest prefix that two texts share. What the first
/// difference, or the end of one text, says of their order is stated along
/// with it.
pub fn shared_prefix(a: &[u8], b: &[u8]) -> (k: usize)
    ensures
        k <= a@.len(),
        k <= b@.len(),
        a@.take(k as int) == b@.take(k as int),
        k < a@.len() && k < b@.len() ==> {
            &&& a@[k as int] != b@[k as int]
            &&& bytes_less(a@, b@) == (a@[k as int] < b@[k as int])
            &&& bytes_less(b@, a@) == (b@[k as int] < a@[k as int])
        },
        k == a@.len() || k == b@.len() ==> {
            &&& bytes_less(a@, b@) == (a@.len() < b@.len())
            &&& bytes_less(b@, a@) == (b@.len() < a@.len())
            &&& (a@ == b@) == (a@.len() == b@.len())
        },
{
    let mut i: usize = 0;
    while i < a.len() && i < b.len() && a[i] == b[i]
        invariant
            i <= a@.len(),
            i <= b@.len(),
            a@.take(i as int) == b@.take(i as int),
        decreases a@.len() - i,
    {
        proof {
            assert(a@.take(i + 1) =~= a@.take(i as int).push(a@[i as int]));
            assert(b@.take(i + 1) =~= b@.take(i as int).push(b@[i as int]));
        }
        i += 1;
    }
    proof {
        lemma_common_prefix(a@, b@, i as int);
        lemma_common_prefix(b@, a@, i as int);
        if i < a@.len() && i < b@.len() {
            assert(a@.skip(i as int)[0] == a@[i as int]);
            assert(b@.skip(i as int)[0] == b@[i as int]);
        } else if a@.len() == b@.len() {
            assert(a@.take(i as int) =~= a@);
            assert(b@.take(i as int) =~= b@);
            lemma_bytes_irreflexive(a@);
        }
    }
    i
}

/// Compares two texts byte by byte.
pub fn compare_bytes(a: &[u8], b: &[u8]) -> (o: Ordering)
    ensures
        o == Ordering::Less <==> bytes_less(a@, b@),
        o == Ordering::Greater <==> bytes_less(b@, a@),
        o == Ordering::Equal <==> a@ == b@,
{
    let k = shared_prefix(a, b);
    if k < a.len() && k < b.len() {
        if a[k] < b[k] {
            Ordering::Less
        } else {
            Ordering::Greater
        }
    } else if a.len() < b.len() {
        Ordering::Less
    } else if a.len() > b.len() {
        Ordering::Greater
    } else {
        Ordering::Equal
    }
}

impl Definition {
    /// How the record stands to `other` in the order.
    pub fn cmp(&self, other: &Definition) -> (o: Ordering)
        ensures
            o == self@.compare(other@),
    {
        let mine = self.kind.ordinal();
        let theirs = other.kind.ordinal();
        proof {
            lemma_order_total(self@, other@);
        }
        if mine < theirs {
            Ordering::Less
        } else if mine > theirs {
            Ordering::Greater
        } else if self.continent < other.continent {
            Ordering::Less
        } else if self.continent > other.continent {
            Ordering::Greater
        } else {
            compare_bytes(self.terrain.as_str().as_bytes(), other.terrain.as_str().as_bytes())
        }
    }
}

impl PartialOrd for Definition {
    fn partial_cmp(&self, other: &Definition) -> (o: Option<Ordering>) {
        Some(self.cmp(other))
    }
}

impl vstd::std_specs::cmp::PartialOrdSpecImpl for Definition {
    open spec fn obeys_partial_cmp_spec() -> bool {
        true
    }

    open spec fn partial_cmp_spec(&self, other: &Definition) -> Option<Ordering> {
        Some(self@.compare(other@))
    }
}

} // verus!
