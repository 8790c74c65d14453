use vstd::prelude::*;

verus! {

/// The outcome of a three-way comparison.
#[derive(PartialEq, Eq, Structural, Clone, Copy, Debug)]
pub enum Cmp {
    Lt,
    Eq,
    Gt,
}

/// The comparison outcome with its sides exchanged.
pub open spec fn flip(c: Cmp) -> Cmp {
    match c {
        Cmp::Lt => Cmp::Gt,
        Cmp::Eq => Cmp::Eq,
        Cmp::Gt => Cmp::Lt,
    }
}

/// Three-way integer comparison.
pub open spec fn int_cmp(x: int, y: int) -> Cmp {
    if x < y {
        Cmp::Lt
    } else if x == y {
        Cmp::Eq
    } else {
        Cmp::Gt
    }
}

/// Lexicographic three-way comparison of character sequences, by code point.
pub open spec fn lex_cmp(s: Seq<char>, t: Seq<char>) -> Cmp
    decreases s.len(),
{
    if s.len() == 0 && t.len() == 0 {
        Cmp::Eq
    } else if s.len() == 0 {
        Cmp::Lt
    } else if t.len() == 0 {
        Cmp::Gt
    } else if (s[0] as int) < (t[0] as int) {
        Cmp::Lt
    } else if (t[0] as int) < (s[0] as int) {
        Cmp::Gt
    } else {
        lex_cmp(s.drop_first(), t.drop_first())
    }
}

/// Two character sequences compare equal exactly when they are equal.
pub proof fn lemma_lex_eq(s: Seq<char>, t: Seq<char>)
    ensures
        (lex_cmp(s, t) == Cmp::Eq) <==> s == t,
    decreases s.len(),
{
    if s.len() == 0 && t.len() == 0 {
        assert(s =~= t);
    } else if s.len() == 0 || t.len() == 0 {
    } else {
        lemma_lex_eq(s.drop_first(), t.drop_first());
        if lex_cmp(s, t) == Cmp::Eq {
            assert(s[0] as int == t[0] as int);
            assert(s[0] == t[0]);
            assert forall|i: int| 0 <= i < s.len() implies s[i] == t[i] by {
                if i > 0 {
                    assert(s.drop_first()[i - 1] == t.drop_first()[i - 1]);
                }
            }
            assert(s =~= t);
        } else if s == t {
            assert(s.drop_first() =~= t.drop_first());
        }
    }
}

/// Exchanging the sides of a lexicographic comparison flips its outcome.
pub proof fn lemma_lex_flip(s: Seq<char>, t: Seq<char>)
    ensures
        lex_cmp(t, s) == flip(lex_cmp(s, t)),
    decreases s.len(),
{
    if s.len() == 0 && t.len() == 0 {
    } else if s.len() == 0 || t.len() == 0 {
    } else {
        lemma_lex_flip(s.drop_first(), t.drop_first());
    }
}

/// Lexicographic strict precedence is transitive.
pub proof fn lemma_lex_trans(s: Seq<char>, t: Seq<char>, u: Seq<char>)
    requires
        lex_cmp(s, t) == Cmp::Lt,
        lex_cmp(t, u) == Cmp::Lt,
    ensures
        lex_cmp(s, u) == Cmp::Lt,
    decreases s.len(),
{
    if s.len() == 0 {
    } else {
        if lex_cmp(s.drop_first(), t.drop_first()) == Cmp::Lt && lex_cmp(
            t.drop_first(),
            u.drop_first(),
        ) == Cmp::Lt {
            lemma_lex_trans(s.drop_first(), t.drop_first(), u.drop_first());
        }
    }
}

/// Three-way comparison of two character runs.
pub fn lex_cmp_chars(a: &str, b: &str) -> (c: Cmp)
    ensures
        c == lex_cmp(a@, b@),
{
    let alen = a.unicode_len();
    let blen = b.unicode_len();
    let mut i: usize = 0;
    proof {
        assert(a@.skip(0) =~= a@);
        assert(b@.skip(0) =~= b@);
    }
    loop
        invariant
            i <= alen == a@.len(),
            i <= blen == b@.len(),
            lex_cmp(a@, b@) == lex_cmp(a@.skip(i as int), b@.skip(i as int)),
        decreases alen - i,
    {
        if i == alen && i == blen {
            return Cmp::Eq;
        }
        if i == alen {
            return Cmp::Lt;
        }
        if i == blen {
            return Cmp::Gt;
        }
        let ca = a.get_char(i);
        let cb = b.get_char(i);
        let na = ca as u32;
        let nb = cb as u32;
        proof {
            assert(a@.skip(i as int)[0] == ca);
            assert(b@.skip(i as int)[0] == cb);
        }
        if na < nb {
            return Cmp::Lt;
        }
        if nb < na {
            return Cmp::Gt;
        }
        proof {
            assert(a@.skip(i as int).drop_first() =~= a@.skip(i + 1));
            assert(b@.skip(i as int).drop_first() =~= b@.skip(i + 1));
        }
        i = i + 1;
    }
}

} // verus!
