//! Splitting character sequences on a separator, and the facts about it
//! that the renderer's merge round-trip and command tokenization rest on.

use vstd::prelude::*;

verus! {

/// `s` split on every occurrence of `sep`: the sequence of (possibly
/// empty) segments between separators. Splitting the empty sequence gives
/// one empty segment, as `str::split` does.
pub open spec fn split_on(s: Seq<char>, sep: char) -> Seq<Seq<char>>
    decreases s.len(),
{
    if s.len() == 0 {
        seq![Seq::<char>::empty()]
    } else if s[0] == sep {
        seq![Seq::<char>::empty()] + split_on(s.drop_first(), sep)
    } else {
        let rest = split_on(s.drop_first(), sep);
        seq![seq![s[0]] + rest[0]] + rest.drop_first()
    }
}

/// Every block split on `sep`, in order.
pub open spec fn split_all(blocks: Seq<Seq<char>>, sep: char) -> Seq<Seq<char>>
    decreases blocks.len(),
{
    if blocks.len() == 0 {
        Seq::<Seq<char>>::empty()
    } else {
        split_on(blocks[0], sep) + split_all(blocks.drop_first(), sep)
    }
}

/// `s` is free of the separator.
pub open spec fn has_no(s: Seq<char>, sep: char) -> bool {
    forall|i: int| 0 <= i < s.len() ==> s[i] != sep
}

/// A split has at least one segment.
pub proof fn lemma_split_len(s: Seq<char>, sep: char)
    ensures
        split_on(s, sep).len() >= 1,
    decreases s.len(),
{
    if s.len() != 0 && s[0] != sep {
        lemma_split_len(s.drop_first(), sep);
    }
}

/// A separator-free sequence splits into itself alone.
pub proof fn lemma_split_no_sep(s: Seq<char>, sep: char)
    requires
        has_no(s, sep),
    ensures
        split_on(s, sep) == seq![s],
    decreases s.len(),
{
    if s.len() == 0 {
        assert(split_on(s, sep) =~~= seq![s]);
    } else {
        let t = s.drop_first();
        assert(has_no(t, sep)) by {
            assert(forall|i: int| 0 <= i < t.len() ==> t[i] == s[i + 1]);
        }
        lemma_split_no_sep(t, sep);
        assert(seq![s[0]] + t =~= s);
        assert(split_on(s, sep) =~= seq![s]);
    }
}

/// Splitting distributes over a separator: cutting `a + sep + b` on `sep`
/// gives the cuts of `a` followed by the cuts of `b`.
pub proof fn lemma_split_concat(a: Seq<char>, b: Seq<char>, sep: char)
    ensures
        split_on(a + seq![sep] + b, sep) == split_on(a, sep) + split_on(b, sep),
    decreases a.len(),
{
    let s = a + seq![sep] + b;
    if a.len() == 0 {
        assert(s[0] == sep);
        assert(s.drop_first() =~= b);
        assert(split_on(s, sep) =~= split_on(a, sep) + split_on(b, sep));
    } else {
        let at = a.drop_first();
        assert(s.drop_first() =~= at + seq![sep] + b);
        lemma_split_concat(at, b, sep);
        lemma_split_len(at, sep);
        let r = split_on(at, sep) + split_on(b, sep);
        assert(r[0] == split_on(at, sep)[0]);
        assert(r.drop_first() =~= split_on(at, sep).drop_first() + split_on(b, sep));
        if a[0] == sep {
            assert(split_on(s, sep) =~= split_on(a, sep) + split_on(b, sep));
        } else {
            assert(s[0] == a[0]);
            assert(split_on(s, sep) =~= seq![seq![s[0]] + r[0]] + r.drop_first());
            assert(split_on(a, sep) =~= seq![seq![a[0]] + split_on(at, sep)[0]] + split_on(
                at,
                sep,
            ).drop_first());
            assert(split_on(s, sep) =~= split_on(a, sep) + split_on(b, sep));
        }
    }
}

/// `split_all` of one more block appends that block's own split.
pub proof fn lemma_split_all_one(block: Seq<char>, rest: Seq<Seq<char>>, sep: char)
    ensures
        split_all(seq![block] + rest, sep) == split_on(block, sep) + split_all(rest, sep),
{
    let bs = seq![block] + rest;
    assert(bs[0] == block);
    assert(bs.drop_first() =~= rest);
}

/// Whether two string slices hold the same characters.
pub fn str_eq(a: &str, b: &str) -> (r: bool)
    ensures
        r == (a@ == b@),
{
    let la = a.unicode_len();
    let lb = b.unicode_len();
    if la != lb {
        return false;
    }
    let mut i: usize = 0;
    while i < la
        invariant
            i <= la,
            la == a@.len(),
            la == b@.len(),
            forall|k: int| 0 <= k < i ==> a@[k] == b@[k],
        decreases la - i,
    {
        if a.get_char(i) != b.get_char(i) {
            return false;
        }
        i += 1;
    }
    proof {
        assert(a@ =~= b@);
    }
    true
}

/// The tokens of `s` between occurrences of `sep`, as plain character
/// vectors.
pub fn split_char(s: &str, sep: char) -> (r: Vec<Vec<char>>)
    ensures
        r@.len() == split_on(s@, sep).len(),
        forall|i: int| 0 <= i < r@.len() ==> r@[i]@ == split_on(s@, sep)[i],
{
    let n = s.unicode_len();
    let mut out: Vec<Vec<char>> = Vec::new();
    let mut cur: Vec<char> = Vec::new();
    let mut i: usize = 0;
    proof {
        assert(s@.take(0) =~= Seq::<char>::empty());
    }
    while i < n
        invariant
            i <= n,
            n == s@.len(),
            out@.map_values(|t: Vec<char>| t@).push(cur@) == split_on(s@.take(i as int), sep),
        decreases n - i,
    {
        let c = s.get_char(i);
        let ghost pre = out@.map_values(|t: Vec<char>| t@);
        let ghost cur0 = cur@;
        let ghost p = s@.take(i as int);
        if c == sep {
            out.push(cur);
            cur = Vec::new();
            proof {
                lemma_split_concat(p, Seq::<char>::empty(), sep);
                assert(p + seq![sep] + Seq::<char>::empty() =~= s@.take(i + 1));
                assert(split_on(Seq::<char>::empty(), sep) =~= seq![Seq::<char>::empty()]);
                assert(out@.map_values(|t: Vec<char>| t@) =~= pre.push(cur0));
                assert(out@.map_values(|t: Vec<char>| t@).push(cur@) =~= split_on(p, sep) + seq![
                    Seq::<char>::empty(),
                ]);
                assert(out@.map_values(|t: Vec<char>| t@).push(cur@) =~= split_on(
                    s@.take(i + 1),
                    sep,
                ));
            }
        } else {
            cur.push(c);
            proof {
                lemma_split_concat_char(p, c, sep);
                lemma_split_len(p, sep);
                assert(p + seq![c] =~= s@.take(i + 1));
                let sp = split_on(p, sep);
                assert(sp.last() == cur0);
                assert(cur@ =~= cur0 + seq![c]);
                assert(out@.map_values(|t: Vec<char>| t@).push(cur@) =~= sp.update(
                    sp.len() - 1,
                    sp.last() + seq![c],
                ));
                assert(out@.map_values(|t: Vec<char>| t@).push(cur@) =~= split_on(
                    s@.take(i + 1),
                    sep,
                ));
            }
        }
        i += 1;
    }
    proof {
        assert(s@.take(n as int) =~= s@);
    }
    out.push(cur);
    proof {
        let m = out@.map_values(|t: Vec<char>| t@);
        assert(forall|k: int| 0 <= k < out@.len() ==> out@[k]@ == #[trigger] m[k]);
    }
    out
}

/// Appending a non-separator character extends the final segment.
proof fn lemma_split_concat_char(a: Seq<char>, c: char, sep: char)
    requires
        c != sep,
    ensures
        split_on(a + seq![c], sep) == split_on(a, sep).update(
            split_on(a, sep).len() - 1,
            split_on(a, sep).last() + seq![c],
        ),
    decreases a.len(),
{
    lemma_split_len(a, sep);
    let s = a + seq![c];
    if a.len() == 0 {
        assert(s[0] == c);
        assert(s.drop_first() =~= Seq::<char>::empty());
        assert(split_on(Seq::<char>::empty(), sep) =~= seq![Seq::<char>::empty()]);
        assert(split_on(s, sep) =~~= seq![seq![c]]);
        assert(split_on(a, sep).update(0, Seq::<char>::empty() + seq![c]) =~= seq![
            Seq::<char>::empty() + seq![c],
        ]);
        assert(Seq::<char>::empty() + seq![c] =~= seq![c]);
        assert(split_on(s, sep) =~~= split_on(a, sep).update(
            split_on(a, sep).len() - 1,
            split_on(a, sep).last() + seq![c],
        ));
    } else {
        let at = a.drop_first();
        assert(s.drop_first() =~= at + seq![c]);
        lemma_split_concat_char(at, c, sep);
        lemma_split_len(at, sep);
        let rt = split_on(at, sep);
        let rt2 = split_on(at + seq![c], sep);
        if a[0] == sep {
            assert(split_on(s, sep) =~= seq![Seq::<char>::empty()] + rt2);
            assert(split_on(a, sep) =~= seq![Seq::<char>::empty()] + rt);
            assert(split_on(s, sep) =~= split_on(a, sep).update(
                split_on(a, sep).len() - 1,
                split_on(a, sep).last() + seq![c],
            ));
        } else {
            assert(s[0] == a[0]);
            if rt.len() == 1 {
                assert(rt2[0] == rt[0] + seq![c]);
                assert(split_on(s, sep) =~= seq![seq![s[0]] + rt2[0]] + rt2.drop_first());
                assert(seq![s[0]] + (rt[0] + seq![c]) =~= (seq![a[0]] + rt[0]) + seq![c]);
                assert(split_on(s, sep) =~= split_on(a, sep).update(
                    split_on(a, sep).len() - 1,
                    split_on(a, sep).last() + seq![c],
                ));
            } else {
                assert(rt2[0] == rt[0]);
                assert(rt2.drop_first() =~= rt.drop_first().update(
                    rt.drop_first().len() - 1,
                    rt.drop_first().last() + seq![c],
                ));
                assert(split_on(s, sep) =~= seq![seq![s[0]] + rt2[0]] + rt2.drop_first());
                assert(split_on(a, sep) =~= seq![seq![a[0]] + rt[0]] + rt.drop_first());
                assert(split_on(s, sep) =~= split_on(a, sep).update(
                    split_on(a, sep).len() - 1,
                    split_on(a, sep).last() + seq![c],
                ));
            }
        }
    }
}

} // verus!
