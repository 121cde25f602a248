//! Object identifiers and their bytewise order.

use crate::bytes::{be_u32, be_u64, lemma_be_u32_injective, lemma_be_u64_injective, u32_at, u64_at};
use std::cmp::Ordering;
use vstd::prelude::*;
use vstd::std_specs::cmp::{PartialEqSpecImpl, PartialOrdSpecImpl};

verus! {

/// A 20-byte content hash, the key of every stored object. Identifiers are
/// ordered bytewise.
#[derive(Clone, Copy, Debug, Hash, Ord)]
pub struct ObjectId {
    pub bytes: [u8; 20],
}

/// How two byte strings of one length stand to each other.
#[derive(Clone, Copy, Debug, PartialEq, Eq, Structural)]
pub enum Order {
    Less,
    Equal,
    Greater,
}

impl View for ObjectId {
    type V = Seq<u8>;

    open spec fn view(&self) -> Seq<u8> {
        self.bytes@
    }
}

/// `a` comes before `b` bytewise: at the first place where they differ `a`
/// holds the smaller byte.
pub open spec fn lex_less(a: Seq<u8>, b: Seq<u8>) -> bool {
    exists|k: int| differ_at(a, b, k)
}

/// `a` and `b` agree before `k`, and there `a` holds the smaller byte.
pub open spec fn differ_at(a: Seq<u8>, b: Seq<u8>, k: int) -> bool {
    &&& 0 <= k < a.len()
    &&& k < b.len()
    &&& a[k] < b[k]
    &&& forall|j: int| 0 <= j < k ==> a[j] == b[j]
}

/// No byte string comes before itself.
pub proof fn lemma_lex_irreflexive(a: Seq<u8>)
    ensures
        !lex_less(a, a),
{
}

/// The bytewise order is transitive.
pub proof fn lemma_lex_transitive(a: Seq<u8>, b: Seq<u8>, c: Seq<u8>)
    requires
        lex_less(a, b),
        lex_less(b, c),
    ensures
        lex_less(a, c),
{
    let k1 = choose|k: int| differ_at(a, b, k);
    let k2 = choose|k: int| differ_at(b, c, k);
    if k1 <= k2 {
        assert(differ_at(a, c, k1));
    } else {
        assert(differ_at(a, c, k2));
    }
}

/// Of two byte strings at most one comes before the other.
pub proof fn lemma_lex_asymmetric(a: Seq<u8>, b: Seq<u8>)
    requires
        lex_less(a, b),
    ensures
        !lex_less(b, a),
        a != b,
{
    if lex_less(b, a) {
        lemma_lex_transitive(a, b, a);
    }
}

/// Compares two byte strings of one length bytewise.
pub fn compare(a: &[u8], b: &[u8]) -> (r: Order)
    requires
        a@.len() == b@.len(),
    ensures
        match r {
            Order::Less => lex_less(a@, b@),
            Order::Equal => a@ == b@,
            Order::Greater => lex_less(b@, a@),
        },
{
    let n: usize = a.len();
    let mut i: usize = 0;
    while i < n
        invariant
            n == a@.len(),
            n == b@.len(),
            i <= n,
            forall|j: int| 0 <= j < i ==> a@[j] == b@[j],
        decreases n - i,
    {
        if a[i] < b[i] {
            assert(differ_at(a@, b@, i as int));
            return Order::Less;
        }
        if b[i] < a[i] {
            assert(differ_at(b@, a@, i as int));
            return Order::Greater;
        }
        i += 1;
    }
    assert(a@ =~= b@);
    Order::Equal
}

impl ObjectId {
    /// The identifier whose bytes are all zero.
    pub fn null() -> (r: ObjectId)
        ensures
            r@ == Seq::new(20, |i: int| 0u8),
    {
        let r = ObjectId { bytes: [0u8; 20] };
        assert(r@ =~= Seq::new(20, |i: int| 0u8));
        r
    }

    /// The identifier held in the 20 bytes of `b`.
    pub fn from_20_bytes(b: &[u8]) -> (r: ObjectId)
        requires
            b@.len() == 20,
        ensures
            r@ == b@,
    {
        let mut bytes = [0u8; 20];
        let mut i: usize = 0;
        while i < 20
            invariant
                i <= 20,
                b@.len() == 20,
                forall|j: int| 0 <= j < i ==> bytes@[j] == b@[j],
            decreases 20 - i,
        {
            bytes[i] = b[i];
            i += 1;
        }
        assert(bytes@ =~= b@);
        ObjectId { bytes }
    }

    /// The 20 bytes of the identifier.
    pub fn as_slice(&self) -> (r: &[u8])
        ensures
            r@ == self@,
    {
        self.bytes.as_slice()
    }

    /// The identifier as three big-endian numbers: a key that no two
    /// identifiers share.
    pub open spec fn spec_key(&self) -> (u64, u64, u32) {
        (be_u64(self@.subrange(0, 8)), be_u64(self@.subrange(8, 16)), be_u32(self@.subrange(16, 20)))
    }

    /// Computes `spec_key`.
    pub fn key(&self) -> (r: (u64, u64, u32))
        ensures
            r == self.spec_key(),
    {
        let s = self.bytes.as_slice();
        (u64_at(s, 0), u64_at(s, 8), u32_at(s, 16))
    }

    /// Identifiers with the same key are the same identifier.
    pub proof fn lemma_key_injective(self, other: ObjectId)
        requires
            self.spec_key() == other.spec_key(),
        ensures
            self == other,
    {
        let a = self@;
        let b = other@;
        lemma_be_u64_injective(a.subrange(0, 8), b.subrange(0, 8));
        lemma_be_u64_injective(a.subrange(8, 16), b.subrange(8, 16));
        lemma_be_u32_injective(a.subrange(16, 20), b.subrange(16, 20));
        assert forall|i: int| 0 <= i < 20 implies a[i] == b[i] by {
            if i < 8 {
                assert(a[i] == a.subrange(0, 8)[i] && b[i] == b.subrange(0, 8)[i]);
            } else if i < 16 {
                assert(a[i] == a.subrange(8, 16)[i - 8] && b[i] == b.subrange(8, 16)[i - 8]);
            } else {
                assert(a[i] == a.subrange(16, 20)[i - 16] && b[i] == b.subrange(16, 20)[i - 16]);
            }
        }
        assert(a =~= b);
        Self::lemma_view_injective(self, other);
    }

    /// Identifiers with the same bytes are the same identifier.
    pub proof fn lemma_view_injective(a: ObjectId, b: ObjectId)
        requires
            a@ == b@,
        ensures
            a == b,
    {
        assert(a.bytes =~= b.bytes);
    }

    /// Whether `self` comes before `other` bytewise.
    pub fn less_than(&self, other: &ObjectId) -> (r: bool)
        ensures
            r == lex_less(self@, other@),
    {
        match compare(self.bytes.as_slice(), other.bytes.as_slice()) {
            Order::Less => true,
            Order::Equal => {
                proof {
                    lemma_lex_irreflexive(self@);
                }
                false
            },
            Order::Greater => {
                proof {
                    lemma_lex_asymmetric(other@, self@);
                }
                false
            },
        }
    }
}

impl PartialEq for ObjectId {
    fn eq(&self, other: &ObjectId) -> (r: bool) {
        match compare(self.bytes.as_slice(), other.bytes.as_slice()) {
            Order::Equal => true,
            Order::Less => {
                proof {
                    lemma_lex_asymmetric(self@, other@);
                }
                false
            },
            Order::Greater => {
                proof {
                    lemma_lex_asymmetric(other@, self@);
                }
                false
            },
        }
    }
}

impl PartialEqSpecImpl for ObjectId {
    open spec fn obeys_eq_spec() -> bool {
        true
    }

    open spec fn eq_spec(&self, other: &ObjectId) -> bool {
        self@ == other@
    }
}

impl Eq for ObjectId {

}

impl PartialOrd for ObjectId {
    fn partial_cmp(&self, other: &ObjectId) -> (r: Option<Ordering>) {
        match compare(self.bytes.as_slice(), other.bytes.as_slice()) {
            Order::Less => {
                proof {
                    lemma_lex_asymmetric(self@, other@);
                }
                Some(Ordering::Less)
            },
            Order::Equal => Some(Ordering::Equal),
            Order::Greater => {
                proof {
                    lemma_lex_asymmetric(other@, self@);
                }
                Some(Ordering::Greater)
            },
        }
    }
}

impl PartialOrdSpecImpl for ObjectId {
    open spec fn obeys_partial_cmp_spec() -> bool {
        true
    }

    open spec fn partial_cmp_spec(&self, other: &ObjectId) -> Option<Ordering> {
        if self@ == other@ {
            Some(Ordering::Equal)
        } else if lex_less(self@, other@) {
            Some(Ordering::Less)
        } else {
            Some(Ordering::Greater)
        }
    }
}

} // verus!
