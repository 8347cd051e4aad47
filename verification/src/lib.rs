//! Core of an embedded log-structured-merge key-value engine: a pluggable
//! total order over byte keys, range partitions with an in-memory write/read
//! path, a parser/validator for the immutable on-disk table format, and a
//! bounded cache of parsed tables.

use vstd::prelude::*;
use core::cmp::Ordering;

pub mod error;
pub mod partition;
pub mod table;

verus! {

/// Deployment-chosen tuning knobs consumed by the core.
#[derive(Clone, Copy)]
pub struct Options {
    /// Threshold on a mutable table's footprint estimate: a write that would
    /// push the estimate past it freezes the table first.
    pub table_size: usize,
}

/// The mirror image of a comparison result: what the other operand sees.
pub open spec fn flip_ordering(o: Ordering) -> Ordering {
    match o {
        Ordering::Less => Ordering::Greater,
        Ordering::Equal => Ordering::Equal,
        Ordering::Greater => Ordering::Less,
    }
}

/// A pluggable, stateless total order over raw byte keys.
///
/// Every higher-level ordering in the engine (user keys, internal keys,
/// memtable layout, partition ranges) is derived from this relation, so the
/// trait demands the total-order laws as proof obligations of each
/// implementation: reflexivity, antisymmetry (`flip`), transitivity, and
/// congruence of the `Equal` class.
pub trait Comparator: Sized {
    /// The mathematical order this comparator decides.
    spec fn cmp_spec(a: Seq<u8>, b: Seq<u8>) -> Ordering;

    /// Every key compares equal to itself.
    proof fn reflexive(a: Seq<u8>)
        ensures
            Self::cmp_spec(a, a) == Ordering::Equal,
    ;

    /// Swapping the operands mirrors the result (antisymmetry).
    proof fn flip(a: Seq<u8>, b: Seq<u8>)
        ensures
            Self::cmp_spec(a, b) == flip_ordering(Self::cmp_spec(b, a)),
    ;

    /// Strict ordering is transitive.
    proof fn transitive(a: Seq<u8>, b: Seq<u8>, c: Seq<u8>)
        requires
            Self::cmp_spec(a, b) == Ordering::Less,
            Self::cmp_spec(b, c) == Ordering::Less,
        ensures
            Self::cmp_spec(a, c) == Ordering::Less,
    ;

    /// Keys of one `Equal` class compare alike against every third key.
    proof fn equal_congruent(a: Seq<u8>, b: Seq<u8>, c: Seq<u8>)
        requires
            Self::cmp_spec(a, b) == Ordering::Equal,
        ensures
            Self::cmp_spec(a, c) == Self::cmp_spec(b, c),
    ;

    /// Three-way comparison of two raw keys, deciding exactly `cmp_spec`.
    fn compare(lhs: &[u8], rhs: &[u8]) -> (r: Ordering)
        ensures
            r == Self::cmp_spec(lhs@, rhs@),
    ;
}

/// Three-way byte-lexicographic comparison: the shorter sequence is a prefix
/// of the longer one and comes first; otherwise the first differing byte
/// decides.
pub open spec fn lex_cmp_spec(a: Seq<u8>, b: Seq<u8>) -> Ordering
    decreases a.len(),
{
    if a.len() == 0 && b.len() == 0 {
        Ordering::Equal
    } else if a.len() == 0 {
        Ordering::Less
    } else if b.len() == 0 {
        Ordering::Greater
    } else if a[0] < b[0] {
        Ordering::Less
    } else if a[0] > b[0] {
        Ordering::Greater
    } else {
        lex_cmp_spec(a.drop_first(), b.drop_first())
    }
}

pub proof fn lemma_lex_reflexive(a: Seq<u8>)
    ensures
        lex_cmp_spec(a, a) == Ordering::Equal,
    decreases a.len(),
{
    if a.len() > 0 {
        lemma_lex_reflexive(a.drop_first());
    }
}

pub proof fn lemma_lex_flip(a: Seq<u8>, b: Seq<u8>)
    ensures
        lex_cmp_spec(a, b) == flip_ordering(lex_cmp_spec(b, a)),
    decreases a.len(),
{
    if a.len() > 0 && b.len() > 0 && a[0] == b[0] {
        lemma_lex_flip(a.drop_first(), b.drop_first());
    }
}

/// Byte-lexicographic `Equal` means the sequences are identical.
pub proof fn lemma_lex_equal_implies_eq(a: Seq<u8>, b: Seq<u8>)
    requires
        lex_cmp_spec(a, b) == Ordering::Equal,
    ensures
        a == b,
    decreases a.len(),
{
    if a.len() == 0 {
        assert(a =~= b);
    } else {
        lemma_lex_equal_implies_eq(a.drop_first(), b.drop_first());
        assert(a[0] == b[0]);
        assert forall|i: int| 0 <= i < a.len() implies a[i] == b[i] by {
            if i > 0 {
                assert(a[i] == a.drop_first()[i - 1]);
                assert(b[i] == b.drop_first()[i - 1]);
            }
        }
        assert(a =~= b);
    }
}

pub proof fn lemma_lex_transitive(a: Seq<u8>, b: Seq<u8>, c: Seq<u8>)
    requires
        lex_cmp_spec(a, b) == Ordering::Less,
        lex_cmp_spec(b, c) == Ordering::Less,
    ensures
        lex_cmp_spec(a, c) == Ordering::Less,
    decreases a.len(),
{
    if a.len() == 0 {
        // c cannot be empty, or b would not compare Less to it.
    } else if a[0] == b[0] && b[0] == c[0] {
        lemma_lex_transitive(a.drop_first(), b.drop_first(), c.drop_first());
    }
}

/// The default deployment order: plain byte-lexicographic comparison.
pub struct DefaultComparator();

impl Comparator for DefaultComparator {
    open spec fn cmp_spec(a: Seq<u8>, b: Seq<u8>) -> Ordering {
        lex_cmp_spec(a, b)
    }

    proof fn reflexive(a: Seq<u8>) {
        lemma_lex_reflexive(a);
    }

    proof fn flip(a: Seq<u8>, b: Seq<u8>) {
        lemma_lex_flip(a, b);
    }

    proof fn transitive(a: Seq<u8>, b: Seq<u8>, c: Seq<u8>) {
        lemma_lex_transitive(a, b, c);
    }

    proof fn equal_congruent(a: Seq<u8>, b: Seq<u8>, c: Seq<u8>) {
        lemma_lex_equal_implies_eq(a, b);
    }

    fn compare(lhs: &[u8], rhs: &[u8]) -> (r: Ordering) {
        let a_len: usize = lhs.len();
        let b_len: usize = rhs.len();
        let mut i: usize = 0;
        proof {
            assert(lhs@.skip(0) =~= lhs@);
            assert(rhs@.skip(0) =~= rhs@);
        }
        loop
            invariant
                i <= a_len,
                i <= b_len,
                a_len == lhs@.len(),
                b_len == rhs@.len(),
                lex_cmp_spec(lhs@, rhs@) == lex_cmp_spec(
                    lhs@.skip(i as int),
                    rhs@.skip(i as int),
                ),
            decreases a_len - i,
        {
            if i == a_len && i == b_len {
                return Ordering::Equal;
            }
            if i == a_len {
                return Ordering::Less;
            }
            if i == b_len {
                return Ordering::Greater;
            }
            let x = lhs[i];
            let y = rhs[i];
            if x < y {
                return Ordering::Less;
            }
            if x > y {
                return Ordering::Greater;
            }
            proof {
                assert(lhs@.skip(i as int).drop_first() =~= lhs@.skip(i as int + 1));
                assert(rhs@.skip(i as int).drop_first() =~= rhs@.skip(i as int + 1));
            }
            i = i + 1;
        }
    }
}

} // verus!
