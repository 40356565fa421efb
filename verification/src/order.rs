//! Lexicographic ordering of strings and of string sequences.
//!
//! The lockfile keeps its package set, local-package set and repository
//! map in their natural order so that serialization is deterministic.
//! The orders bottom out in the strict lexicographic order on character
//! sequences defined here, compared by Unicode scalar value.

use vstd::prelude::*;
use vstd::string::StrSliceExecFns;

verus! {

/// Strict lexicographic order on character sequences: `a` comes before
/// `b` iff `a` is a proper prefix of `b`, or the first differing
/// position holds a smaller scalar value in `a`.
pub open spec fn chars_lt(a: Seq<char>, b: Seq<char>) -> bool
    decreases a.len(),
{
    if b.len() == 0 {
        false
    } else if a.len() == 0 {
        true
    } else if (a[0] as u32) < (b[0] as u32) {
        true
    } else if a[0] == b[0] {
        chars_lt(a.skip(1), b.skip(1))
    } else {
        false
    }
}

/// The order is irreflexive.
pub proof fn lemma_chars_lt_irrefl(a: Seq<char>)
    ensures
        !chars_lt(a, a),
    decreases a.len(),
{
    if a.len() > 0 {
        lemma_chars_lt_irrefl(a.skip(1));
    }
}

/// The order is asymmetric, and ordered sequences are unequal.
pub proof fn lemma_chars_lt_asym(a: Seq<char>, b: Seq<char>)
    requires
        chars_lt(a, b),
    ensures
        !chars_lt(b, a),
        a != b,
    decreases a.len(),
{
    if a.len() == 0 {
        assert(a.len() != b.len());
    } else {
        if (a[0] as u32) < (b[0] as u32) {
            assert(!chars_lt(b, a));
            assert(a[0] != b[0]);
        } else {
            lemma_chars_lt_asym(a.skip(1), b.skip(1));
            if a == b {
                assert(a.skip(1) == b.skip(1));
            }
        }
    }
}

/// Two characters with the same scalar value are the same character.
pub proof fn lemma_char_injective(c1: char, c2: char)
    requires
        c1 as u32 == c2 as u32,
    ensures
        c1 == c2,
{
}

/// Any two character sequences are ordered or equal.
pub proof fn lemma_chars_lt_total(a: Seq<char>, b: Seq<char>)
    ensures
        chars_lt(a, b) || a == b || chars_lt(b, a),
    decreases a.len(),
{
    if b.len() == 0 {
        if a.len() == 0 {
            assert(a =~= b);
        }
    } else if a.len() == 0 {
    } else if (a[0] as u32) < (b[0] as u32) {
    } else if (b[0] as u32) < (a[0] as u32) {
    } else {
        lemma_char_injective(a[0], b[0]);
        lemma_chars_lt_total(a.skip(1), b.skip(1));
        if a.skip(1) == b.skip(1) && !chars_lt(a, b) && !chars_lt(b, a) {
            assert(a.skip(1).len() == a.len() - 1);
            assert(b.skip(1).len() == b.len() - 1);
            assert forall|j: int| 0 <= j < a.len() implies a[j] == b[j] by {
                if j >= 1 {
                    assert(a[j] == a.skip(1)[j - 1]);
                    assert(b[j] == b.skip(1)[j - 1]);
                }
            }
            assert(a =~= b);
        }
    }
}

/// The order is transitive.
pub proof fn lemma_chars_lt_trans(a: Seq<char>, b: Seq<char>, c: Seq<char>)
    requires
        chars_lt(a, b),
        chars_lt(b, c),
    ensures
        chars_lt(a, c),
    decreases a.len(),
{
    if a.len() == 0 {
    } else {
        if a[0] == b[0] && b[0] == c[0] {
            lemma_chars_lt_trans(a.skip(1), b.skip(1), c.skip(1));
        }
    }
}

/// If `a` and `b` agree on a common prefix and differ at its end,
/// the order is decided by the characters there.
proof fn lemma_chars_lt_prefix(a: Seq<char>, b: Seq<char>, i: int)
    requires
        0 <= i < a.len(),
        i < b.len(),
        forall|j: int| 0 <= j < i ==> a[j] == b[j],
        (a[i] as u32) < (b[i] as u32),
    ensures
        chars_lt(a, b),
    decreases i,
{
    if i == 0 {
    } else {
        assert(a[0] == b[0]);
        assert(a.skip(1)[i - 1] == a[i]);
        assert(b.skip(1)[i - 1] == b[i]);
        assert(forall|j: int|
            0 <= j < i - 1 ==> #[trigger] a.skip(1)[j] == a[j + 1] && #[trigger] b.skip(1)[j] == b[
                j + 1
            ]);
        lemma_chars_lt_prefix(a.skip(1), b.skip(1), i - 1);
    }
}

/// A proper prefix comes before any extension of it.
proof fn lemma_chars_lt_shorter(a: Seq<char>, b: Seq<char>, i: int)
    requires
        0 <= i == a.len(),
        a.len() < b.len(),
        forall|j: int| 0 <= j < i ==> a[j] == b[j],
    ensures
        chars_lt(a, b),
    decreases i,
{
    if i == 0 {
    } else {
        assert(a[0] == b[0]);
        assert(forall|j: int|
            0 <= j < i - 1 ==> #[trigger] a.skip(1)[j] == a[j + 1] && #[trigger] b.skip(1)[j] == b[
                j + 1
            ]);
        lemma_chars_lt_shorter(a.skip(1), b.skip(1), i - 1);
    }
}

/// Three-way comparison of two strings under [`chars_lt`] on their views.
pub fn str_cmp(a: &str, b: &str) -> (r: i8)
    ensures
        -1 <= r <= 1,
        (r == -1) <==> chars_lt(a@, b@),
        (r == 0) <==> a@ == b@,
        (r == 1) <==> chars_lt(b@, a@),
{
    let alen = a.unicode_len();
    let blen = b.unicode_len();
    let mut i: usize = 0;
    while i < alen && i < blen
        invariant
            0 <= i <= alen,
            i <= blen,
            alen == a@.len(),
            blen == b@.len(),
            forall|j: int| 0 <= j < i ==> a@[j] == b@[j],
        decreases alen - i,
    {
        let ca = a.get_char(i);
        let cb = b.get_char(i);
        if (ca as u32) < (cb as u32) {
            proof {
                lemma_chars_lt_prefix(a@, b@, i as int);
                lemma_chars_lt_asym(a@, b@);
            }
            return -1;
        }
        if (cb as u32) < (ca as u32) {
            proof {
                lemma_chars_lt_prefix(b@, a@, i as int);
                lemma_chars_lt_asym(b@, a@);
            }
            return 1;
        }
        proof {
            lemma_char_injective(ca, cb);
        }
        i = i + 1;
    }
    if alen == blen {
        proof {
            assert(a@ =~= b@);
            lemma_chars_lt_irrefl(a@);
        }
        0
    } else if alen < blen {
        proof {
            lemma_chars_lt_shorter(a@, b@, i as int);
            lemma_chars_lt_asym(a@, b@);
        }
        -1
    } else {
        proof {
            lemma_chars_lt_shorter(b@, a@, i as int);
            lemma_chars_lt_asym(b@, a@);
        }
        1
    }
}

/// Equality test on two strings, by their views.
pub fn str_eq(a: &str, b: &str) -> (r: bool)
    ensures
        r == (a@ == b@),
{
    str_cmp(a, b) == 0
}

/// Strict lexicographic order on sequences of character sequences,
/// elementwise by [`chars_lt`].
pub open spec fn str_seq_lt(a: Seq<Seq<char>>, b: Seq<Seq<char>>) -> bool
    decreases a.len(),
{
    if b.len() == 0 {
        false
    } else if a.len() == 0 {
        true
    } else if chars_lt(a[0], b[0]) {
        true
    } else if a[0] == b[0] {
        str_seq_lt(a.skip(1), b.skip(1))
    } else {
        false
    }
}

/// The elementwise order is asymmetric, and ordered sequences are unequal.
pub proof fn lemma_str_seq_lt_asym(a: Seq<Seq<char>>, b: Seq<Seq<char>>)
    requires
        str_seq_lt(a, b),
    ensures
        !str_seq_lt(b, a),
        a != b,
    decreases a.len(),
{
    if a.len() == 0 {
        assert(a.len() != b.len());
    } else {
        if chars_lt(a[0], b[0]) {
            lemma_chars_lt_asym(a[0], b[0]);
            assert(!str_seq_lt(b, a));
        } else {
            lemma_str_seq_lt_asym(a.skip(1), b.skip(1));
            if a == b {
                assert(a.skip(1) == b.skip(1));
            }
        }
    }
}

/// Any two sequences of character sequences are ordered or equal.
pub proof fn lemma_str_seq_lt_total(a: Seq<Seq<char>>, b: Seq<Seq<char>>)
    ensures
        str_seq_lt(a, b) || a == b || str_seq_lt(b, a),
    decreases a.len(),
{
    if b.len() == 0 {
        if a.len() == 0 {
            assert(a =~= b);
        }
    } else if a.len() == 0 {
    } else {
        lemma_chars_lt_total(a[0], b[0]);
        if chars_lt(a[0], b[0]) {
        } else if chars_lt(b[0], a[0]) {
        } else {
            lemma_str_seq_lt_total(a.skip(1), b.skip(1));
            if a.skip(1) == b.skip(1) && !str_seq_lt(a, b) && !str_seq_lt(b, a) {
                assert(a.skip(1).len() == a.len() - 1);
                assert(b.skip(1).len() == b.len() - 1);
                assert forall|j: int| 0 <= j < a.len() implies a[j] == b[j] by {
                    if j >= 1 {
                        assert(a[j] == a.skip(1)[j - 1]);
                        assert(b[j] == b.skip(1)[j - 1]);
                    }
                }
                assert(a =~= b);
            }
        }
    }
}

/// The elementwise order is transitive.
pub proof fn lemma_str_seq_lt_trans(a: Seq<Seq<char>>, b: Seq<Seq<char>>, c: Seq<Seq<char>>)
    requires
        str_seq_lt(a, b),
        str_seq_lt(b, c),
    ensures
        str_seq_lt(a, c),
    decreases a.len(),
{
    if a.len() == 0 {
    } else {
        if a[0] == b[0] && b[0] == c[0] {
            lemma_chars_lt_irrefl(a[0]);
            lemma_chars_lt_irrefl(b[0]);
            lemma_str_seq_lt_trans(a.skip(1), b.skip(1), c.skip(1));
        } else if a[0] == b[0] {
            lemma_chars_lt_irrefl(a[0]);
        } else if b[0] == c[0] {
            lemma_chars_lt_irrefl(b[0]);
        } else {
            lemma_chars_lt_trans(a[0], b[0], c[0]);
        }
    }
}

/// If `a` and `b` agree on a common prefix and the elements at its end
/// are ordered, the sequences are ordered the same way.
proof fn lemma_str_seq_lt_prefix(a: Seq<Seq<char>>, b: Seq<Seq<char>>, i: int)
    requires
        0 <= i < a.len(),
        i < b.len(),
        forall|j: int| 0 <= j < i ==> a[j] == b[j],
        chars_lt(a[i], b[i]),
    ensures
        str_seq_lt(a, b),
    decreases i,
{
    if i == 0 {
    } else {
        assert(a[0] == b[0]);
        assert(a.skip(1)[i - 1] == a[i]);
        assert(b.skip(1)[i - 1] == b[i]);
        assert(forall|j: int|
            0 <= j < i - 1 ==> #[trigger] a.skip(1)[j] == a[j + 1] && #[trigger] b.skip(1)[j] == b[
                j + 1
            ]);
        lemma_str_seq_lt_prefix(a.skip(1), b.skip(1), i - 1);
    }
}

/// A proper prefix comes before any extension of it.
proof fn lemma_str_seq_lt_shorter(a: Seq<Seq<char>>, b: Seq<Seq<char>>, i: int)
    requires
        0 <= i == a.len(),
        a.len() < b.len(),
        forall|j: int| 0 <= j < i ==> a[j] == b[j],
    ensures
        str_seq_lt(a, b),
    decreases i,
{
    if i == 0 {
    } else {
        assert(a[0] == b[0]);
        assert(forall|j: int|
            0 <= j < i - 1 ==> #[trigger] a.skip(1)[j] == a[j + 1] && #[trigger] b.skip(1)[j] == b[
                j + 1
            ]);
        lemma_str_seq_lt_shorter(a.skip(1), b.skip(1), i - 1);
    }
}

/// Three-way comparison of two string vectors under [`str_seq_lt`] on
/// their element views.
pub fn str_vec_cmp(a: &Vec<String>, b: &Vec<String>) -> (r: i8)
    ensures
        -1 <= r <= 1,
        (r == -1) <==> str_seq_lt(a.deep_view(), b.deep_view()),
        (r == 0) <==> a.deep_view() == b.deep_view(),
        (r == 1) <==> str_seq_lt(b.deep_view(), a.deep_view()),
{
    let mut i: usize = 0;
    while i < a.len() && i < b.len()
        invariant
            0 <= i <= a.len(),
            i <= b.len(),
            forall|j: int| 0 <= j < i ==> a.deep_view()[j] == b.deep_view()[j],
        decreases a.len() - i,
    {
        proof {
            assert(a.deep_view()[i as int] == a@[i as int]@);
            assert(b.deep_view()[i as int] == b@[i as int]@);
        }
        let c = str_cmp(a[i].as_str(), b[i].as_str());
        if c == -1 {
            proof {
                lemma_str_seq_lt_prefix(a.deep_view(), b.deep_view(), i as int);
                lemma_str_seq_lt_asym(a.deep_view(), b.deep_view());
            }
            return -1;
        }
        if c == 1 {
            proof {
                lemma_str_seq_lt_prefix(b.deep_view(), a.deep_view(), i as int);
                lemma_str_seq_lt_asym(b.deep_view(), a.deep_view());
            }
            return 1;
        }
        i = i + 1;
    }
    if a.len() == b.len() {
        proof {
            assert(a.deep_view() =~= b.deep_view());
            lemma_str_seq_lt_irrefl(a.deep_view());
        }
        0
    } else if a.len() < b.len() {
        proof {
            lemma_str_seq_lt_shorter(a.deep_view(), b.deep_view(), i as int);
            lemma_str_seq_lt_asym(a.deep_view(), b.deep_view());
        }
        -1
    } else {
        proof {
            lemma_str_seq_lt_shorter(b.deep_view(), a.deep_view(), i as int);
            lemma_str_seq_lt_asym(b.deep_view(), a.deep_view());
        }
        1
    }
}

/// The elementwise order is irreflexive.
pub proof fn lemma_str_seq_lt_irrefl(a: Seq<Seq<char>>)
    ensures
        !str_seq_lt(a, a),
    decreases a.len(),
{
    if a.len() > 0 {
        lemma_chars_lt_irrefl(a[0]);
        lemma_str_seq_lt_irrefl(a.skip(1));
    }
}

/// Equality test on two string vectors, by their element views.
pub fn str_vec_eq(a: &Vec<String>, b: &Vec<String>) -> (r: bool)
    ensures
        r == (a.deep_view() == b.deep_view()),
{
    str_vec_cmp(a, b) == 0
}

} // verus!
