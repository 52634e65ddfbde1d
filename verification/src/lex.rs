//! Lexicographic order on byte strings.
//!
//! Registry keys are byte strings; the pair registry stores its records in
//! ascending lexicographic key order and pages through them with an
//! exclusive cursor, so this order and its basic laws carry most of the
//! registry's contracts.

use vstd::prelude::*;
use vstd::seq_lib::lemma_seq_skip_of_skip;

verus! {

/// `a` is lexicographically less than or equal to `b`: at the first position
/// where they differ the byte of `a` is smaller, or `a` is a prefix of `b`.
pub open spec fn lex_le(a: Seq<u8>, b: Seq<u8>) -> bool
    decreases a.len(),
{
    if a.len() == 0 {
        true
    } else if b.len() == 0 {
        false
    } else if a[0] < b[0] {
        true
    } else if a[0] > b[0] {
        false
    } else {
        lex_le(a.skip(1), b.skip(1))
    }
}

/// Strict order, written through `lex_le` so one relation carries all laws.
pub open spec fn lex_lt(a: Seq<u8>, b: Seq<u8>) -> bool {
    !lex_le(b, a)
}

/// Any two byte strings compare one way or the other.
pub proof fn lemma_lex_total(a: Seq<u8>, b: Seq<u8>)
    ensures
        lex_le(a, b) || lex_le(b, a),
    decreases a.len(),
{
    if a.len() != 0 && b.len() != 0 && a[0] == b[0] {
        lemma_lex_total(a.skip(1), b.skip(1));
    }
}

/// Two byte strings each below the other are equal.
pub proof fn lemma_lex_antisymmetric(a: Seq<u8>, b: Seq<u8>)
    requires
        lex_le(a, b),
        lex_le(b, a),
    ensures
        a == b,
    decreases a.len(),
{
    if a.len() != 0 && b.len() != 0 && a[0] == b[0] {
        lemma_lex_antisymmetric(a.skip(1), b.skip(1));
        assert(forall|j: int| 1 <= j < a.len() ==> a[j] == a.skip(1)[j - 1]);
        assert(forall|j: int| 1 <= j < b.len() ==> b[j] == b.skip(1)[j - 1]);
        assert(a =~= b);
    } else {
        assert(a =~= b);
    }
}

pub proof fn lemma_lex_transitive(a: Seq<u8>, b: Seq<u8>, c: Seq<u8>)
    requires
        lex_le(a, b),
        lex_le(b, c),
    ensures
        lex_le(a, c),
    decreases a.len(),
{
    if a.len() != 0 && b.len() != 0 && c.len() != 0 {
        if a[0] == b[0] && b[0] == c[0] {
            lemma_lex_transitive(a.skip(1), b.skip(1), c.skip(1));
        }
    }
}

pub proof fn lemma_lex_reflexive(a: Seq<u8>)
    ensures
        lex_le(a, a),
    decreases a.len(),
{
    if a.len() != 0 {
        lemma_lex_reflexive(a.skip(1));
    }
}

/// The strict order never holds between equal byte strings.
pub proof fn lemma_lex_lt_neq(a: Seq<u8>, b: Seq<u8>)
    requires
        lex_lt(a, b),
    ensures
        a != b,
{
    if a == b {
        lemma_lex_reflexive(a);
    }
}

pub proof fn lemma_lex_lt_transitive(a: Seq<u8>, b: Seq<u8>, c: Seq<u8>)
    requires
        lex_lt(a, b),
        lex_lt(b, c),
    ensures
        lex_lt(a, c),
{
    lemma_lex_total(a, b);
    lemma_lex_total(b, c);
    lemma_lex_transitive(a, b, c);
    if lex_le(c, a) {
        lemma_lex_transitive(b, c, a);
        lemma_lex_antisymmetric(b, a);
    }
}

/// Comparing two byte strings is decided by their first difference, so
/// dropping an equal prefix does not change the answer.
pub proof fn lemma_lex_skip_prefix(a: Seq<u8>, b: Seq<u8>, i: int)
    requires
        0 <= i <= a.len(),
        i <= b.len(),
        forall|j: int| 0 <= j < i ==> a[j] == b[j],
    ensures
        lex_le(a, b) == lex_le(a.skip(i), b.skip(i)),
    decreases i,
{
    if i == 0 {
        assert(a.skip(0) =~= a);
        assert(b.skip(0) =~= b);
    } else {
        assert(lex_le(a, b) == lex_le(a.skip(1), b.skip(1)));
        assert(forall|j: int| 0 <= j < i - 1 ==> a.skip(1)[j] == b.skip(1)[j]);
        lemma_lex_skip_prefix(a.skip(1), b.skip(1), i - 1);
        lemma_seq_skip_of_skip(a, 1, i);
        lemma_seq_skip_of_skip(b, 1, i);
        assert(a.skip(1).skip(i - 1) =~= a.skip(i));
        assert(b.skip(1).skip(i - 1) =~= b.skip(i));
    }
}

/// A byte string never exceeds its own extensions.
pub proof fn lemma_lex_prefix_le(a: Seq<u8>, ext: Seq<u8>)
    ensures
        lex_le(a, a + ext),
    decreases a.len(),
{
    if a.len() != 0 {
        assert((a + ext)[0] == a[0]);
        assert((a + ext).skip(1) =~= a.skip(1) + ext);
        lemma_lex_prefix_le(a.skip(1), ext);
    }
}

/// Executable equality of byte strings.
pub fn bytes_eq(a: &Vec<u8>, b: &Vec<u8>) -> (r: bool)
    ensures
        r == (a@ == b@),
{
    let a_len: usize = a.len();
    let b_len: usize = b.len();
    if a_len != b_len {
        proof {
            assert(a@ != b@);
        }
        return false;
    }
    let mut i: usize = 0;
    loop
        invariant
            0 <= i <= a_len,
            a_len == a@.len(),
            a_len == b@.len(),
            forall|j: int| 0 <= j < i ==> a@[j] == b@[j],
        decreases a_len - i,
    {
        if i == a_len {
            proof {
                assert(a@ =~= b@);
            }
            return true;
        }
        if a[i] != b[i] {
            return false;
        }
        i = i + 1;
    }
}

/// Executable comparison, `r == lex_le(a@, b@)`.
pub fn bytes_le(a: &Vec<u8>, b: &Vec<u8>) -> (r: bool)
    ensures
        r == lex_le(a@, b@),
{
    let mut i: usize = 0;
    let a_len: usize = a.len();
    let b_len: usize = b.len();
    loop
        invariant
            0 <= i <= a_len,
            i <= b_len,
            a_len == a@.len(),
            b_len == b@.len(),
            forall|j: int| 0 <= j < i ==> a@[j] == b@[j],
        decreases a_len - i,
    {
        if i == a_len {
            proof {
                lemma_lex_skip_prefix(a@, b@, i as int);
            }
            return true;
        }
        if i == b_len {
            proof {
                lemma_lex_skip_prefix(a@, b@, i as int);
            }
            return false;
        }
        let x: u8 = a[i];
        let y: u8 = b[i];
        if x != y {
            proof {
                lemma_lex_skip_prefix(a@, b@, i as int);
            }
            return x < y;
        }
        i = i + 1;
    }
}

} // verus!
