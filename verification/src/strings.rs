//! Character-level utilities on `&str` and `String`, verified against their
//! `Seq<char>` views: equality, prefix and suffix tests, lexicographic
//! ordering, and splitting and joining on `/`.

use vstd::prelude::*;
use vstd::string::*;

verus! {

/// The views of a sequence of strings.
pub open spec fn views_of(v: Seq<String>) -> Seq<Seq<char>> {
    v.map_values(|x: String| x@)
}

/// The character sequence obtained by joining `parts` with `/`.
pub open spec fn slash_join(parts: Seq<Seq<char>>) -> Seq<char>
    decreases parts.len(),
{
    if parts.len() == 0 {
        Seq::empty()
    } else if parts.len() == 1 {
        parts[0]
    } else {
        parts[0] + seq!['/'] + slash_join(parts.drop_first())
    }
}

/// Lexicographic `<=` on character sequences, ordered by Unicode scalar value.
pub open spec fn lex_le_chars(a: Seq<char>, b: Seq<char>) -> bool
    decreases a.len(),
{
    if a.len() == 0 {
        true
    } else if b.len() == 0 {
        false
    } else if a[0] == b[0] {
        lex_le_chars(a.drop_first(), b.drop_first())
    } else {
        (a[0] as int) < (b[0] as int)
    }
}

/// `lex_le_chars` restricted to the suffixes starting at `i`.
pub open spec fn lex_le_from(a: Seq<char>, b: Seq<char>, i: int) -> bool
    decreases a.len() - i,
{
    if i < 0 || i >= a.len() {
        true
    } else if i >= b.len() {
        false
    } else if a[i] == b[i] {
        lex_le_from(a, b, i + 1)
    } else {
        (a[i] as int) < (b[i] as int)
    }
}

/// Any two character sequences are comparable under `lex_le_chars`.
pub proof fn lemma_lex_le_total(a: Seq<char>, b: Seq<char>)
    ensures
        lex_le_chars(a, b) || lex_le_chars(b, a),
    decreases a.len(),
{
    if a.len() > 0 && b.len() > 0 && a[0] == b[0] {
        lemma_lex_le_total(a.drop_first(), b.drop_first());
    }
}

/// `lex_le_chars` is antisymmetric.
pub proof fn lemma_lex_le_antisym(a: Seq<char>, b: Seq<char>)
    requires
        lex_le_chars(a, b),
        lex_le_chars(b, a),
    ensures
        a == b,
    decreases a.len(),
{
    if a.len() > 0 && b.len() > 0 && a[0] == b[0] {
        lemma_lex_le_antisym(a.drop_first(), b.drop_first());
        assert forall|i: int| 0 <= i < a.len() implies a[i] == b[i] by {
            if i > 0 {
                assert(a[i] == a.drop_first()[i - 1]);
                assert(b[i] == b.drop_first()[i - 1]);
            }
        }
        assert(a =~= b);
    } else {
        assert(a =~= b);
    }
}

/// `lex_le_chars` is transitive.
pub proof fn lemma_lex_le_trans(a: Seq<char>, b: Seq<char>, c: Seq<char>)
    requires
        lex_le_chars(a, b),
        lex_le_chars(b, c),
    ensures
        lex_le_chars(a, c),
    decreases a.len(),
{
    if a.len() > 0 && b.len() > 0 && c.len() > 0 && a[0] == b[0] && b[0] == c[0] {
        lemma_lex_le_trans(a.drop_first(), b.drop_first(), c.drop_first());
    }
}

/// `lex_le_from` at `i` agrees with `lex_le_chars` on the suffixes.
proof fn lemma_lex_le_from_skip(a: Seq<char>, b: Seq<char>, i: int)
    requires
        0 <= i <= a.len(),
        0 <= i <= b.len(),
    ensures
        lex_le_from(a, b, i) == lex_le_chars(a.skip(i), b.skip(i)),
    decreases a.len() - i,
{
    let sa = a.skip(i);
    let sb = b.skip(i);
    if i >= a.len() {
        assert(sa.len() == 0);
    } else if i >= b.len() {
        assert(sb.len() == 0);
        assert(sa.len() > 0);
    } else {
        assert(sa[0] == a[i]);
        assert(sb[0] == b[i]);
        if a[i] == b[i] {
            lemma_lex_le_from_skip(a, b, i + 1);
            assert(sa.drop_first() =~= a.skip(i + 1));
            assert(sb.drop_first() =~= b.skip(i + 1));
        }
    }
}

/// String equality, decided character by character.
pub fn chars_eq(a: &str, b: &str) -> (r: bool)
    ensures
        r == (a@ == b@),
{
    let alen = a.unicode_len();
    let blen = b.unicode_len();
    if alen != blen {
        return false;
    }
    let mut i: usize = 0;
    while i < alen
        invariant
            alen == a@.len(),
            blen == b@.len(),
            alen == blen,
            i <= alen,
            forall|j: int| 0 <= j < i ==> a@[j] == b@[j],
        decreases alen - i,
    {
        if a.get_char(i) != b.get_char(i) {
            return false;
        }
        i = i + 1;
    }
    proof {
        assert(a@ =~= b@);
    }
    true
}

/// Whether `p` is a prefix of `s`.
pub fn has_prefix(s: &str, p: &str) -> (r: bool)
    ensures
        r == p@.is_prefix_of(s@),
{
    let plen = p.unicode_len();
    let slen = s.unicode_len();
    if plen > slen {
        return false;
    }
    let mut i: usize = 0;
    while i < plen
        invariant
            plen == p@.len(),
            slen == s@.len(),
            plen <= slen,
            i <= plen,
            forall|j: int| 0 <= j < i ==> p@[j] == s@[j],
        decreases plen - i,
    {
        if p.get_char(i) != s.get_char(i) {
            proof {
                if p@.is_prefix_of(s@) {
                    assert(p@[i as int] == s@.subrange(0, p@.len() as int)[i as int]);
                }
            }
            return false;
        }
        i = i + 1;
    }
    proof {
        assert(p@ =~= s@.subrange(0, p@.len() as int));
    }
    true
}

/// Whether `p` is a suffix of `s`.
pub fn has_suffix(s: &str, p: &str) -> (r: bool)
    ensures
        r == p@.is_suffix_of(s@),
{
    let plen = p.unicode_len();
    let slen = s.unicode_len();
    if plen > slen {
        return false;
    }
    let off = slen - plen;
    let mut i: usize = 0;
    while i < plen
        invariant
            plen == p@.len(),
            slen == s@.len(),
            plen <= slen,
            off == slen - plen,
            i <= plen,
            forall|j: int| 0 <= j < i ==> p@[j] == s@[j + off],
        decreases plen - i,
    {
        if p.get_char(i) != s.get_char(off + i) {
            proof {
                if p@.is_suffix_of(s@) {
                    assert(p@[i as int] == s@.subrange(
                        s@.len() - p@.len(),
                        s@.len() as int,
                    )[i as int]);
                }
            }
            return false;
        }
        i = i + 1;
    }
    proof {
        assert(p@ =~= s@.subrange(s@.len() - p@.len(), s@.len() as int));
    }
    true
}

/// Lexicographic `<=` on strings.
pub fn str_le(a: &str, b: &str) -> (r: bool)
    ensures
        r == lex_le_chars(a@, b@),
{
    let alen = a.unicode_len();
    let blen = b.unicode_len();
    proof {
        lemma_lex_le_from_skip(a@, b@, 0);
        assert(a@.skip(0) =~= a@);
        assert(b@.skip(0) =~= b@);
    }
    let mut i: usize = 0;
    while i < alen && i < blen
        invariant
            alen == a@.len(),
            blen == b@.len(),
            i <= alen,
            i <= blen,
            lex_le_chars(a@, b@) == lex_le_from(a@, b@, i as int),
        decreases alen - i,
    {
        let ca = a.get_char(i);
        let cb = b.get_char(i);
        if ca != cb {
            return (ca as u32) < (cb as u32);
        }
        i = i + 1;
    }
    i >= alen
}

/// The pieces of `s` between its `/` separators, in order. A string with no
/// `/` is one piece; each separator starts a new piece.
pub open spec fn split_chars(s: Seq<char>) -> Seq<Seq<char>>
    decreases s.len(),
{
    if s.len() == 0 {
        seq![Seq::<char>::empty()]
    } else if s[0] == '/' {
        seq![Seq::<char>::empty()] + split_chars(s.drop_first())
    } else {
        let rest = split_chars(s.drop_first());
        seq![seq![s[0]] + rest[0]] + rest.drop_first()
    }
}

/// `split_chars` always yields at least one piece.
pub proof fn lemma_split_chars_len(s: Seq<char>)
    ensures
        split_chars(s).len() >= 1,
    decreases s.len(),
{
    if s.len() > 0 {
        lemma_split_chars_len(s.drop_first());
    }
}

/// Splits `s` on `/`.
pub fn split_slash(s: &str) -> (r: Vec<String>)
    ensures
        views_of(r@) == split_chars(s@),
{
    let n = s.unicode_len();
    let mut out: Vec<String> = Vec::new();
    let mut cur: String = String::new();
    let mut i: usize = 0;
    proof {
        assert(s@.skip(0) =~= s@);
    }
    while i < n
        invariant
            i <= n,
            n == s@.len(),
            split_chars(s@) =~~= views_of(out@) + seq![cur@ + split_chars(s@.skip(i as int))[0]]
                + split_chars(s@.skip(i as int)).drop_first(),
        decreases n - i,
    {
        let ghost rest = split_chars(s@.skip(i as int));
        let ghost rest2 = split_chars(s@.skip(i + 1));
        proof {
            lemma_split_chars_len(s@.skip(i + 1));
            assert(s@.skip(i as int)[0] == s@[i as int]);
            assert(s@.skip(i as int).drop_first() =~= s@.skip(i + 1));
        }
        let c = s.get_char(i);
        if c == '/' {
            let ghost outv = views_of(out@);
            let ghost curv = cur@;
            out.push(cur);
            cur = String::new();
            proof {
                assert(rest =~~= seq![Seq::<char>::empty()] + rest2);
                assert(views_of(out@) =~= outv.push(curv));
                assert(curv + rest[0] =~= curv);
                assert(split_chars(s@) =~~= views_of(out@) + seq![cur@ + rest2[0]]
                    + rest2.drop_first());
            }
        } else {
            let ghost curv = cur@;
            let cs = s.substring_char(i, i + 1);
            cur.append(cs);
            proof {
                assert(cs@ =~= seq![c]);
                assert(rest =~~= seq![seq![c] + rest2[0]] + rest2.drop_first());
                assert(cur@ =~= curv + seq![c]);
                assert(cur@ + rest2[0] =~= curv + rest[0]);
                assert(split_chars(s@) =~~= views_of(out@) + seq![cur@ + rest2[0]]
                    + rest2.drop_first());
            }
        }
        i = i + 1;
    }
    let ghost outv = views_of(out@);
    let ghost curv = cur@;
    out.push(cur);
    proof {
        let e = split_chars(s@.skip(n as int));
        assert(s@.skip(n as int) =~= Seq::<char>::empty());
        assert(e =~~= seq![Seq::<char>::empty()]);
        assert(curv + e[0] =~= curv);
        assert(views_of(out@) =~= outv.push(curv));
        assert(views_of(out@) =~~= split_chars(s@));
    }
    out
}



/// Joining one more piece appends a separator and that piece.
pub proof fn lemma_slash_join_append(vs: Seq<Seq<char>>, x: Seq<char>)
    requires
        vs.len() >= 1,
    ensures
        slash_join(vs.push(x)) =~= slash_join(vs) + seq!['/'] + x,
    decreases vs.len(),
{
    let l = vs.push(x);
    if vs.len() == 1 {
        assert(l.drop_first() =~= Seq::<Seq<char>>::empty().push(x));
        assert(slash_join(l) == l[0] + seq!['/'] + slash_join(l.drop_first()));
        assert(slash_join(l.drop_first()) == x);
        assert(l[0] == vs[0]);
        assert(slash_join(vs) == vs[0]);
    } else {
        lemma_slash_join_append(vs.drop_first(), x);
        assert(l.drop_first() =~= vs.drop_first().push(x));
        assert(slash_join(l) == l[0] + seq!['/'] + slash_join(l.drop_first()));
        assert(slash_join(vs) == vs[0] + seq!['/'] + slash_join(vs.drop_first()));
        assert(l[0] == vs[0]);
    }
}

/// Joins `parts` with `/`.
pub fn join_slash(parts: &Vec<String>) -> (r: String)
    ensures
        r@ == slash_join(views_of(parts@)),
{
    let mut r = String::new();
    let mut i: usize = 0;
    while i < parts.len()
        invariant
            i <= parts@.len(),
            r@ =~= slash_join(views_of(parts@).subrange(0, i as int)),
        decreases parts@.len() - i,
    {
        if i > 0 {
            r.append("/");
            proof {
                reveal_strlit("/");
            }
        }
        r.append(parts[i].as_str());
        proof {
            let vs = views_of(parts@);
            assert(vs.subrange(0, i + 1) =~= vs.subrange(0, i as int).push(vs[i as int]));
            if i > 0 {
                lemma_slash_join_append(vs.subrange(0, i as int), vs[i as int]);
            }
        }
        i = i + 1;
    }
    proof {
        assert(views_of(parts@).subrange(0, parts@.len() as int) =~= views_of(parts@));
    }
    r
}

} // verus!
