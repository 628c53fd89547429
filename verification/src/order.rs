//! Lexicographic order on names, by Unicode code point.
//!
//! Exported type definitions are emitted sorted by name, so the order itself and
//! the facts that make it a total order (transitivity, connexity) live here.

use vstd::prelude::*;
use vstd::utf8::char_u32_cast;

verus! {

/// Does `a` come strictly before `b`, comparing code points from position `i` on?
pub open spec fn lex_from(a: Seq<char>, b: Seq<char>, i: int) -> bool
    decreases a.len() - i,
{
    if i >= b.len() {
        false
    } else if i >= a.len() {
        true
    } else if (a[i] as u32) < (b[i] as u32) {
        true
    } else if a[i] == b[i] {
        lex_from(a, b, i + 1)
    } else {
        false
    }
}

/// Strict lexicographic order on character sequences.
pub open spec fn lex_lt(a: Seq<char>, b: Seq<char>) -> bool {
    lex_from(a, b, 0)
}

/// The order is irreflexive.
pub proof fn lemma_lex_from_irrefl(a: Seq<char>, i: int)
    ensures
        !lex_from(a, a, i),
    decreases a.len() - i,
{
    if i < a.len() {
        lemma_lex_from_irrefl(a, i + 1);
    }
}

/// The order is transitive.
pub proof fn lemma_lex_from_trans(a: Seq<char>, b: Seq<char>, c: Seq<char>, i: int)
    requires
        lex_from(a, b, i),
        lex_from(b, c, i),
    ensures
        lex_from(a, c, i),
    decreases a.len() - i,
{
    if i >= a.len() {
    } else if (a[i] as u32) < (b[i] as u32) {
        if (b[i] as u32) < (c[i] as u32) {
        } else {
            assert(b[i] == c[i]);
        }
    } else {
        assert(a[i] == b[i]);
        if i < c.len() && (b[i] as u32) < (c[i] as u32) {
        } else {
            assert(b[i] == c[i]);
            lemma_lex_from_trans(a, b, c, i + 1);
        }
    }
}

/// Two sequences with neither before the other agree from position `i` on.
pub proof fn lemma_lex_from_connex(a: Seq<char>, b: Seq<char>, i: int)
    requires
        0 <= i <= a.len(),
        i <= b.len(),
        !lex_from(a, b, i),
        !lex_from(b, a, i),
    ensures
        a.len() == b.len(),
        forall|j: int| i <= j < a.len() ==> a[j] == b[j],
    decreases a.len() - i,
{
    if i == a.len() {
    } else if i == b.len() {
    } else {
        assert((a[i] as u32) == (b[i] as u32));
        char_u32_cast(a[i], a[i] as u32);
        char_u32_cast(b[i], b[i] as u32);
        assert(a[i] == b[i]);
        lemma_lex_from_connex(a, b, i + 1);
    }
}

/// Strict lexicographic comparison of two strings.
pub fn str_lt(a: &str, b: &str) -> (r: bool)
    ensures
        r == lex_lt(a@, b@),
{
    let alen: usize = a.unicode_len();
    let blen: usize = b.unicode_len();
    let mut i: usize = 0;
    loop
        invariant
            0 <= i <= alen,
            i <= blen,
            alen == a@.len(),
            blen == b@.len(),
            lex_lt(a@, b@) == lex_from(a@, b@, i as int),
        decreases alen - i,
    {
        if i >= blen {
            return false;
        }
        if i >= alen {
            return true;
        }
        let ca = a.get_char(i);
        let cb = b.get_char(i);
        if (ca as u32) < (cb as u32) {
            return true;
        }
        if (cb as u32) < (ca as u32) {
            return false;
        }
        proof {
            char_u32_cast(a@[i as int], ca as u32);
            char_u32_cast(b@[i as int], cb as u32);
        }
        assert(a@[i as int] == b@[i as int]);
        i = i + 1;
    }
}

/// String equality, stated over the views.
pub fn str_eq(a: &String, b: &String) -> (r: bool)
    ensures
        r == (a@ == b@),
{
    a.eq(b)
}

} // verus!
