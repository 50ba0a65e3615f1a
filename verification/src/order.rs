//! Lexicographic ordering over character sequences.
//!
//! Registry entries are kept in a stable order whose keys are strings, so
//! the sort relation bottoms out in a code-point-wise comparison of
//! `Seq<char>` values. This module defines that comparison, proves that it
//! is a strict order with trichotomy, and provides the executable
//! three-way comparison on `&str` that the sorting code uses.

use vstd::prelude::*;
use vstd::string::StrSliceExecFns;

verus! {

/// Strict lexicographic order on character sequences, by code point.
/// The empty sequence comes first; otherwise the first differing
/// position decides, and a proper prefix precedes its extensions.
pub open spec fn lex_lt(a: Seq<char>, b: Seq<char>) -> bool
    decreases a.len(),
{
    if b.len() == 0 {
        false
    } else if a.len() == 0 {
        true
    } else if (a[0] as u32) < (b[0] as u32) {
        true
    } else if (b[0] as u32) < (a[0] as u32) {
        false
    } else {
        lex_lt(a.drop_first(), b.drop_first())
    }
}

/// Casting to a code point is injective, so equal code points mean
/// equal characters.
pub proof fn lemma_char_cast_injective(x: char, y: char)
    ensures
        x as u32 == y as u32 ==> x == y,
{
    if x as u32 == y as u32 {
        vstd::utf8::char_u32_cast(x, x as u32);
        vstd::utf8::char_u32_cast(y, y as u32);
    }
}

pub proof fn lemma_lex_lt_irreflexive(a: Seq<char>)
    ensures
        !lex_lt(a, a),
    decreases a.len(),
{
    if a.len() > 0 {
        lemma_lex_lt_irreflexive(a.drop_first());
    }
}

/// Two sequences that neither precedes are equal.
pub proof fn lemma_lex_lt_connected(a: Seq<char>, b: Seq<char>)
    ensures
        !lex_lt(a, b) && !lex_lt(b, a) ==> a == b,
    decreases a.len(),
{
    if a.len() > 0 && b.len() > 0 && !lex_lt(a, b) && !lex_lt(b, a) {
        lemma_char_cast_injective(a[0], b[0]);
        assert(a[0] == b[0]);
        lemma_lex_lt_connected(a.drop_first(), b.drop_first());
        assert(a.drop_first() == b.drop_first());
        assert(a.len() == b.len());
        assert forall|i: int| 0 <= i < a.len() implies a[i] == b[i] by {
            if i > 0 {
                assert(a.drop_first()[i - 1] == a[i]);
                assert(b.drop_first()[i - 1] == b[i]);
            }
        }
        assert(a =~= b);
    }
}

pub proof fn lemma_lex_lt_asymmetric(a: Seq<char>, b: Seq<char>)
    ensures
        lex_lt(a, b) ==> !lex_lt(b, a),
    decreases a.len(),
{
    if a.len() > 0 && b.len() > 0 {
        lemma_lex_lt_asymmetric(a.drop_first(), b.drop_first());
    }
}

pub proof fn lemma_lex_lt_transitive(a: Seq<char>, b: Seq<char>, c: Seq<char>)
    ensures
        lex_lt(a, b) && lex_lt(b, c) ==> lex_lt(a, c),
    decreases a.len(),
{
    if a.len() > 0 && b.len() > 0 && c.len() > 0 {
        lemma_lex_lt_transitive(a.drop_first(), b.drop_first(), c.drop_first());
    }
}

/// Dropping a common prefix does not change the comparison.
pub proof fn lemma_lex_lt_skip_prefix(a: Seq<char>, b: Seq<char>, i: int)
    requires
        0 <= i <= a.len(),
        i <= b.len(),
        forall|j: int| 0 <= j < i ==> a[j] == b[j],
    ensures
        lex_lt(a, b) == lex_lt(a.skip(i), b.skip(i)),
    decreases i,
{
    if i > 0 {
        assert(a[0] == b[0]);
        assert(a.drop_first().skip(i - 1) =~= a.skip(i));
        assert(b.drop_first().skip(i - 1) =~= b.skip(i));
        lemma_lex_lt_skip_prefix(a.drop_first(), b.drop_first(), i - 1);
    } else {
        assert(a.skip(0) =~= a);
        assert(b.skip(0) =~= b);
    }
}

/// String equality, decided through the three-way comparison.
pub fn str_eq(a: &str, b: &str) -> (r: bool)
    ensures
        r == (a@ == b@),
{
    proof {
        lemma_lex_lt_irreflexive(a@);
        lemma_lex_lt_irreflexive(b@);
    }
    let c = str_cmp(a, b);
    c == 1
}

/// Three-way comparison of two strings by the order above.
/// Returns `Less`, `Equal` or `Greater` encoded as 0, 1 or 2.
pub fn str_cmp(a: &str, b: &str) -> (r: u8)
    ensures
        r == 0 ==> lex_lt(a@, b@),
        r == 1 ==> a@ == b@,
        r == 2 ==> lex_lt(b@, a@),
        r <= 2,
{
    let a_len = a.unicode_len();
    let b_len = b.unicode_len();
    let mut i: usize = 0;
    let min: usize = if a_len < b_len {
        a_len
    } else {
        b_len
    };
    while i < min
        invariant
            0 <= i <= min,
            min <= a_len && min <= b_len,
            min == if a_len < b_len {
                a_len
            } else {
                b_len
            },
            a_len == a@.len(),
            b_len == b@.len(),
            forall|j: int| 0 <= j < i ==> a@[j] == b@[j],
        decreases min - i,
    {
        let ca = a.get_char(i);
        let cb = b.get_char(i);
        if (ca as u32) < (cb as u32) {
            proof {
                lemma_lex_lt_skip_prefix(a@, b@, i as int);
            }
            return 0;
        }
        if (cb as u32) < (ca as u32) {
            proof {
                lemma_lex_lt_skip_prefix(b@, a@, i as int);
            }
            return 2;
        }
        proof {
            lemma_char_cast_injective(ca, cb);
        }
        assert(ca == cb);
        i = i + 1;
    }
    if a_len < b_len {
        proof {
            lemma_lex_lt_skip_prefix(a@, b@, i as int);
        }
        0
    } else if b_len < a_len {
        proof {
            lemma_lex_lt_skip_prefix(b@, a@, i as int);
        }
        2
    } else {
        proof {
            assert(a@ =~= b@);
        }
        1
    }
}

} // verus!
