//! Finding an identifier in a pack index: the fan-out table narrows the search
//! to the entries that share the identifier's first byte, and a binary search
//! among them does the rest.

use crate::bytes::{be_bytes_u64, lemma_be_u64_roundtrip};
use crate::hash::{
    compare, lemma_lex_asymmetric, lemma_lex_irreflexive, lemma_lex_transitive, lex_less, ObjectId,
    Order,
};
use crate::index::file::{is_entry, lemma_fan_bounded, lemma_fan_ordered, Entry, File};
use crate::index::layout::{
    count, fan_at, kind_of, large_pos, offset_at, oid_at, raw_offset_at, well_formed, Kind,
    HIGH_BIT,
};
use vstd::prelude::*;

verus! {

/// Each identifier of the index comes before the next one.
pub open spec fn sorted(data: Seq<u8>) -> bool {
    forall|i: int|
        0 <= i < count(data) - 1 ==> lex_less(#[trigger] oid_at(data, i), oid_at(data, i + 1))
}

/// How many of the first `n` entries have an identifier whose first byte is
/// `b` or smaller.
pub open spec fn count_upto(data: Seq<u8>, n: int, b: int) -> int
    decreases n,
{
    if n <= 0 {
        0
    } else {
        count_upto(data, n - 1, b) + if oid_at(data, n - 1)[0] <= b {
            1int
        } else {
            0int
        }
    }
}

/// The count at each place `b` of the fan-out table is the number of entries
/// whose identifier starts with `b` or a smaller byte.
pub open spec fn fan_counts(data: Seq<u8>) -> bool {
    forall|b: int| 0 <= b < 256 ==> #[trigger] fan_at(data, b) == count_upto(data, count(data), b)
}

/// `data` is a well-formed index whose identifiers strictly increase and whose
/// fan-out table counts them.
pub open spec fn valid(data: Seq<u8>) -> bool {
    &&& well_formed(data)
    &&& sorted(data)
    &&& fan_counts(data)
}

/// Where the entries start whose identifier has the first byte `b`.
pub open spec fn bucket_start(data: Seq<u8>, b: int) -> int {
    if b == 0 {
        0
    } else {
        fan_at(data, b - 1) as int
    }
}

/// In a sorted index every entry comes before every later one.
pub proof fn lemma_sorted_pairs(data: Seq<u8>, i: int, j: int)
    requires
        sorted(data),
        0 <= i < j < count(data),
    ensures
        lex_less(oid_at(data, i), oid_at(data, j)),
    decreases j - i,
{
    if i + 1 < j {
        lemma_sorted_pairs(data, i, j - 1);
        assert(lex_less(oid_at(data, j - 1), oid_at(data, (j - 1) + 1)));
        lemma_lex_transitive(oid_at(data, i), oid_at(data, j - 1), oid_at(data, j));
    }
}

/// Iterating a sorted index gives as many entries as it counts, each with an
/// identifier that comes before those of all later entries.
pub proof fn lemma_iteration_increases(data: Seq<u8>, entries: Seq<Entry>, i: int, j: int)
    requires
        sorted(data),
        entries.len() == count(data),
        forall|k: int| 0 <= k < entries.len() ==> is_entry(data, k, #[trigger] entries[k]),
        0 <= i < j < entries.len(),
    ensures
        lex_less(entries[i].oid@, entries[j].oid@),
{
    lemma_sorted_pairs(data, i, j);
}

/// In a sorted index no identifier occurs twice.
pub proof fn lemma_sorted_distinct(data: Seq<u8>, i: int, j: int)
    requires
        sorted(data),
        0 <= i < count(data),
        0 <= j < count(data),
        oid_at(data, i) == oid_at(data, j),
    ensures
        i == j,
{
    if i < j {
        lemma_sorted_pairs(data, i, j);
        lemma_lex_asymmetric(oid_at(data, i), oid_at(data, j));
    } else if j < i {
        lemma_sorted_pairs(data, j, i);
        lemma_lex_asymmetric(oid_at(data, j), oid_at(data, i));
    }
}

/// In a sorted index the first bytes of the identifiers never decrease.
pub proof fn lemma_first_bytes_ordered(data: Seq<u8>, i: int, j: int)
    requires
        sorted(data),
        0 <= i <= j < count(data),
    ensures
        oid_at(data, i)[0] <= oid_at(data, j)[0],
{
    if i < j {
        lemma_sorted_pairs(data, i, j);
    }
}

proof fn lemma_count_bounds(data: Seq<u8>, n: int, b: int)
    requires
        0 <= n,
    ensures
        0 <= count_upto(data, n, b) <= n,
    decreases n,
{
    if n > 0 {
        lemma_count_bounds(data, n - 1, b);
    }
}

proof fn lemma_count_all(data: Seq<u8>, n: int, b: int)
    requires
        0 <= n,
        forall|j: int| 0 <= j < n ==> (#[trigger] oid_at(data, j))[0] <= b,
    ensures
        count_upto(data, n, b) == n,
    decreases n,
{
    if n > 0 {
        lemma_count_all(data, n - 1, b);
    }
}

proof fn lemma_count_none(data: Seq<u8>, m: int, n: int, b: int)
    requires
        0 <= m <= n,
        forall|j: int| m <= j < n ==> (#[trigger] oid_at(data, j))[0] > b,
    ensures
        count_upto(data, n, b) == count_upto(data, m, b),
    decreases n - m,
{
    if m < n {
        lemma_count_none(data, m, n - 1, b);
    }
}

proof fn lemma_count_grows(data: Seq<u8>, m: int, n: int, b: int)
    requires
        0 <= m <= n,
    ensures
        count_upto(data, m, b) <= count_upto(data, n, b),
    decreases n - m,
{
    if m < n {
        lemma_count_grows(data, m, n - 1, b);
    }
}

/// The fan-out table leads to every entry: entry `i` of a valid index lies in
/// the bucket of its identifier's first byte, which starts at the count of the
/// byte before (at 0 for the first byte 0) and ends before the count of the
/// byte itself.
pub proof fn lemma_entry_in_bucket(data: Seq<u8>, i: int)
    requires
        valid(data),
        0 <= i < count(data),
    ensures
        bucket_start(data, oid_at(data, i)[0] as int) <= i < fan_at(
            data,
            oid_at(data, i)[0] as int,
        ),
{
    let n = count(data);
    let c = oid_at(data, i)[0] as int;
    assert(fan_at(data, c) == count_upto(data, n, c));
    assert forall|j: int| 0 <= j < i + 1 implies (#[trigger] oid_at(data, j))[0] <= c by {
        lemma_first_bytes_ordered(data, j, i);
    }
    lemma_count_all(data, i + 1, c);
    lemma_count_grows(data, i + 1, n, c);
    if c > 0 {
        assert(fan_at(data, c - 1) == count_upto(data, n, c - 1));
        assert forall|j: int| i <= j < n implies (#[trigger] oid_at(data, j))[0] > c - 1 by {
            lemma_first_bytes_ordered(data, i, j);
        }
        lemma_count_none(data, i, n, c - 1);
        lemma_count_bounds(data, i, c - 1);
    }
}

/// A pack offset that does not fit in 31 bits is read back as it was written:
/// where entry `i` of a well-formed version 2 index stores the mark and the
/// place `k`, and place `k` of the table of 64-bit offsets holds `v` in
/// big-endian bytes, the entry's offset is `v`.
pub proof fn lemma_large_offset_roundtrip(data: Seq<u8>, i: int, k: u32, v: u64)
    requires
        well_formed(data),
        kind_of(data) == Kind::V2,
        0 <= i < count(data),
        raw_offset_at(data, i) == HIGH_BIT + k,
        data.subrange(large_pos(data, k as int), large_pos(data, k as int) + 8) == be_bytes_u64(v),
    ensures
        offset_at(data, i) == v,
{
    lemma_be_u64_roundtrip(v);
}

/// In a sorted index the count at a place of the fan-out table is right if
/// and only if it parts the entries with the first byte `b` or a smaller one
/// from those with a larger one.
proof fn lemma_fan_count_at(data: Seq<u8>, b: int, k: int)
    requires
        sorted(data),
        0 <= k <= count(data),
    ensures
        k == count_upto(data, count(data), b) <==> (k == 0 || oid_at(data, k - 1)[0] <= b) && (k
            == count(data) || oid_at(data, k)[0] > b),
{
    let n = count(data);
    if (k == 0 || oid_at(data, k - 1)[0] <= b) && (k == n || oid_at(data, k)[0] > b) {
        assert forall|j: int| 0 <= j < k implies (#[trigger] oid_at(data, j))[0] <= b by {
            lemma_first_bytes_ordered(data, j, k - 1);
        }
        assert forall|j: int| k <= j < n implies (#[trigger] oid_at(data, j))[0] > b by {
            lemma_first_bytes_ordered(data, k, j);
        }
        lemma_count_all(data, k, b);
        lemma_count_none(data, k, n, b);
    } else if k > 0 && oid_at(data, k - 1)[0] > b {
        assert forall|j: int| k - 1 <= j < n implies (#[trigger] oid_at(data, j))[0] > b by {
            lemma_first_bytes_ordered(data, k - 1, j);
        }
        lemma_count_none(data, k - 1, n, b);
        lemma_count_bounds(data, k - 1, b);
    } else {
        assert forall|j: int| 0 <= j < k + 1 implies (#[trigger] oid_at(data, j))[0] <= b by {
            lemma_first_bytes_ordered(data, j, k);
        }
        lemma_count_all(data, k + 1, b);
        lemma_count_grows(data, k + 1, n, b);
    }
}

impl File {
    /// Whether the identifiers strictly increase and the fan-out table counts
    /// them: what a lookup relies on and opening the file does not check.
    /// Every entry is read once.
    pub fn is_valid(&self) -> (r: bool)
        ensures
            r == valid(self.bytes()),
    {
        proof {
            use_type_invariant(self);
            self.lemma_wf();
        }
        let ghost data = self.bytes();
        let n: u32 = self.num_objects();
        let mut i: u32 = 1;
        while i < n
            invariant
                1 <= i,
                n == count(data),
                data == self.bytes(),
                forall|j: int| 0 <= j < i - 1 ==> lex_less(#[trigger] oid_at(data, j), oid_at(data, j + 1)),
            decreases n - i,
        {
            match compare(self.oid_bytes_at_index(i - 1), self.oid_bytes_at_index(i)) {
                Order::Less => {},
                Order::Equal => {
                    proof {
                        lemma_lex_irreflexive(oid_at(data, i as int));
                        assert(!lex_less(oid_at(data, i - 1), oid_at(data, (i - 1) + 1)));
                    }
                    return false;
                },
                Order::Greater => {
                    proof {
                        lemma_lex_asymmetric(oid_at(data, i as int), oid_at(data, i - 1));
                        assert(!lex_less(oid_at(data, i - 1), oid_at(data, (i - 1) + 1)));
                    }
                    return false;
                },
            }
            i += 1;
        }
        assert(sorted(data));
        let mut b: usize = 0;
        while b < 256
            invariant
                b <= 256,
                n == count(data),
                data == self.bytes(),
                sorted(data),
                well_formed(data),
                forall|c: int| 0 <= c < b ==> #[trigger] fan_at(data, c) == count_upto(data, n as int, c),
            decreases 256 - b,
        {
            let k: u32 = self.fan(b as u8);
            proof {
                lemma_fan_count_at(data, b as int, k as int);
            }
            if k > 0 && self.oid_bytes_at_index(k - 1)[0] > b as u8 {
                return false;
            }
            if k < n && self.oid_bytes_at_index(k)[0] <= b as u8 {
                return false;
            }
            b += 1;
        }
        true
    }

    /// Looks `id` up: the place of the entry that holds it.
    ///
    /// An entry that is returned holds `id`, whatever the file. That `None`
    /// means absence rests on the order of the identifiers and on the counts
    /// of the fan-out table, which opening a file does not check.
    pub fn lookup(&self, id: &ObjectId) -> (r: Option<u32>)
        ensures
            match r {
                Some(i) => i < count(self.bytes()) && oid_at(self.bytes(), i as int) == id@,
                None => valid(self.bytes()) ==> forall|i: int|
                    0 <= i < count(self.bytes()) ==> oid_at(self.bytes(), i) != id@,
            },
    {
        proof {
            use_type_invariant(self);
            self.lemma_wf();
        }
        let ghost data = self.bytes();
        let first: u8 = id.bytes[0];
        let mut lo: u32 = if first == 0 {
            0
        } else {
            self.fan(first - 1)
        };
        let mut hi: u32 = self.fan(first);
        proof {
            if first > 0 {
                lemma_fan_ordered(data, first as int - 1, first as int);
            }
            lemma_fan_bounded(data, first as int);
            assert forall|i: int|
                valid(data) && 0 <= i < count(data) && oid_at(data, i) == id@ implies lo <= i
                < hi by {
                lemma_entry_in_bucket(data, i);
            }
        }
        while lo < hi
            invariant
                data == self.bytes(),
                lo <= hi <= count(data),
                forall|i: int|
                    valid(data) && 0 <= i < count(data) && oid_at(data, i) == id@ ==> lo <= i
                        < hi,
            decreases hi - lo,
        {
            let mid: u32 = lo + (hi - lo) / 2;
            match compare(self.oid_bytes_at_index(mid), id.as_slice()) {
                Order::Equal => {
                    return Some(mid);
                },
                Order::Less => {
                    proof {
                        assert forall|i: int|
                            valid(data) && 0 <= i < count(data) && oid_at(data, i)
                                == id@ implies mid < i by {
                            if i < mid {
                                lemma_sorted_pairs(data, i, mid as int);
                                lemma_lex_asymmetric(oid_at(data, i), oid_at(data, mid as int));
                            } else if i == mid {
                                lemma_lex_asymmetric(oid_at(data, mid as int), id@);
                            }
                        }
                    }
                    lo = mid + 1;
                },
                Order::Greater => {
                    proof {
                        assert forall|i: int|
                            valid(data) && 0 <= i < count(data) && oid_at(data, i)
                                == id@ implies i < mid by {
                            if i > mid {
                                lemma_sorted_pairs(data, mid as int, i);
                                lemma_lex_asymmetric(oid_at(data, mid as int), oid_at(data, i));
                            } else if i == mid {
                                lemma_lex_asymmetric(id@, oid_at(data, mid as int));
                            }
                        }
                    }
                    hi = mid;
                },
            }
        }
        None
    }
}

} // verus!
