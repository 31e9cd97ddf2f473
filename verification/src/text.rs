//! Byte-level text helpers: the relay's grammars are defined over the raw
//! bytes of an inbound line, so trimming, searching and splitting are given
//! exact specifications here.

use vstd::prelude::*;

verus! {

/// ASCII whitespace, the characters the relay trims around names and bodies.
pub open spec fn is_space(b: u8) -> bool {
    b == 32 || b == 9 || b == 13 || b == 10
}

/// Executable mirror of `is_space`.
pub fn byte_is_space(b: u8) -> (r: bool)
    ensures
        r == is_space(b),
{
    b == 32 || b == 9 || b == 13 || b == 10
}

/// `s` with leading ASCII whitespace removed.
pub open spec fn trim_start_spec(s: Seq<u8>) -> Seq<u8>
    decreases s.len(),
{
    if s.len() > 0 && is_space(s[0]) {
        trim_start_spec(s.drop_first())
    } else {
        s
    }
}

/// `s` with trailing ASCII whitespace removed.
pub open spec fn trim_end_spec(s: Seq<u8>) -> Seq<u8>
    decreases s.len(),
{
    if s.len() > 0 && is_space(s.last()) {
        trim_end_spec(s.drop_last())
    } else {
        s
    }
}

/// `s` with whitespace removed on both sides.
pub open spec fn trim_spec(s: Seq<u8>) -> Seq<u8> {
    trim_end_spec(trim_start_spec(s))
}

proof fn lemma_trim_start_range(s: Seq<u8>, i: int)
    requires
        0 <= i <= s.len(),
        forall|j: int| 0 <= j < i ==> is_space(s[j]),
        i == s.len() || !is_space(s[i]),
    ensures
        trim_start_spec(s) == s.subrange(i, s.len() as int),
    decreases i,
{
    if i == 0 {
        if s.len() > 0 && is_space(s[0]) {
            assert(false);
        }
        assert(s.subrange(0, s.len() as int) =~= s);
    } else {
        let t = s.drop_first();
        assert(forall|j: int| 0 <= j < i - 1 ==> is_space(t[j]));
        lemma_trim_start_range(t, i - 1);
        assert(t.subrange(i - 1, t.len() as int) =~= s.subrange(i, s.len() as int));
    }
}

proof fn lemma_trim_end_range(s: Seq<u8>, i: int)
    requires
        0 <= i <= s.len(),
        forall|j: int| i <= j < s.len() ==> is_space(s[j]),
        i == 0 || !is_space(s[i - 1]),
    ensures
        trim_end_spec(s) == s.subrange(0, i),
    decreases s.len() - i,
{
    if i == s.len() {
        if s.len() > 0 && is_space(s.last()) {
            assert(false);
        }
        assert(s.subrange(0, s.len() as int) =~= s);
    } else {
        let t = s.drop_last();
        lemma_trim_end_range(t, i);
        assert(t.subrange(0, i) =~= s.subrange(0, i));
    }
}

/// Copy of `s[lo..hi]`.
pub fn subvec(s: &Vec<u8>, lo: usize, hi: usize) -> (r: Vec<u8>)
    requires
        lo <= hi <= s@.len(),
    ensures
        r@ == s@.subrange(lo as int, hi as int),
{
    let mut r: Vec<u8> = Vec::new();
    let mut k: usize = lo;
    while k < hi
        invariant
            lo <= k <= hi <= s@.len(),
            r@ == s@.subrange(lo as int, k as int),
        decreases hi - k,
    {
        r.push(s[k]);
        assert(s@.subrange(lo as int, k as int).push(s@[k as int]) =~= s@.subrange(
            lo as int,
            k + 1 as int,
        ));
        k = k + 1;
    }
    r
}

/// Index of the first occurrence of `c` in `s`, if any.
pub open spec fn find_byte(s: Seq<u8>, c: u8) -> Option<int>
    decreases s.len(),
{
    if s.len() == 0 {
        None
    } else if s[0] == c {
        Some(0)
    } else {
        match find_byte(s.drop_first(), c) {
            None => None,
            Some(i) => Some(i + 1),
        }
    }
}

/// `find_byte` returns the least index holding `c`, or `None` when `c` is absent.
pub proof fn lemma_find_byte(s: Seq<u8>, c: u8)
    ensures
        match find_byte(s, c) {
            None => forall|j: int| 0 <= j < s.len() ==> s[j] != c,
            Some(i) => 0 <= i < s.len() && s[i] == c && (forall|j: int| 0 <= j < i ==> s[j] != c),
        },
    decreases s.len(),
{
    if s.len() > 0 && s[0] != c {
        let t = s.drop_first();
        lemma_find_byte(t, c);
        match find_byte(t, c) {
            None => {
                assert(forall|j: int| 0 <= j < s.len() ==> s[j] != c) by {
                    assert(forall|j: int| 1 <= j < s.len() ==> s[j] == t[j - 1]);
                }
            },
            Some(i) => {
                assert(s[i + 1] == t[i]);
                assert(forall|j: int| 0 <= j < i + 1 ==> s[j] != c) by {
                    assert(forall|j: int| 1 <= j < s.len() ==> s[j] == t[j - 1]);
                }
            },
        }
    }
}

proof fn lemma_find_byte_at(s: Seq<u8>, c: u8, i: int)
    requires
        0 <= i < s.len(),
        s[i] == c,
        forall|j: int| 0 <= j < i ==> s[j] != c,
    ensures
        find_byte(s, c) == Some(i),
    decreases i,
{
    if i > 0 {
        assert(forall|j: int| 0 <= j < i - 1 ==> s.drop_first()[j] != c);
        lemma_find_byte_at(s.drop_first(), c, i - 1);
    }
}

proof fn lemma_find_byte_none(s: Seq<u8>, c: u8)
    requires
        forall|j: int| 0 <= j < s.len() ==> s[j] != c,
    ensures
        find_byte(s, c) == None::<int>,
    decreases s.len(),
{
    if s.len() > 0 {
        assert(forall|j: int| 0 <= j < s.drop_first().len() ==> s.drop_first()[j] != c);
        lemma_find_byte_none(s.drop_first(), c);
    }
}

/// Search `s` for the first occurrence of `c`.
pub fn find(s: &Vec<u8>, c: u8) -> (r: Option<usize>)
    ensures
        match r {
            None => find_byte(s@, c) == None::<int>,
            Some(i) => find_byte(s@, c) == Some(i as int),
        },
{
    let mut k: usize = 0;
    while k < s.len()
        invariant
            0 <= k <= s@.len(),
            forall|j: int| 0 <= j < k ==> s@[j] != c,
        decreases s@.len() - k,
    {
        if s[k] == c {
            proof {
                lemma_find_byte_at(s@, c, k as int);
            }
            return Some(k);
        }
        k = k + 1;
    }
    proof {
        lemma_find_byte_none(s@, c);
    }
    None
}

/// Compare two byte vectors for equality of contents.
pub fn bytes_eq(a: &Vec<u8>, b: &Vec<u8>) -> (r: bool)
    ensures
        r == (a@ == b@),
{
    if a.len() != b.len() {
        return false;
    }
    let mut k: usize = 0;
    while k < a.len()
        invariant
            0 <= k <= a@.len(),
            a@.len() == b@.len(),
            forall|j: int| 0 <= j < k ==> a@[j] == b@[j],
        decreases a@.len() - k,
    {
        if a[k] != b[k] {
            return false;
        }
        k = k + 1;
    }
    proof {
        assert(a@ =~= b@);
    }
    true
}

/// The views of a sequence of byte vectors.
pub open spec fn views(s: Seq<Vec<u8>>) -> Seq<Seq<u8>> {
    s.map_values(|v: Vec<u8>| v@)
}

/// Append the contents of `src` to `dst`.
pub fn append_bytes(dst: &mut Vec<u8>, src: &Vec<u8>)
    ensures
        final(dst)@ == old(dst)@ + src@,
{
    let mut k: usize = 0;
    while k < src.len()
        invariant
            0 <= k <= src@.len(),
            dst@ == old(dst)@ + src@.subrange(0, k as int),
        decreases src@.len() - k,
    {
        dst.push(src[k]);
        assert(old(dst)@ + src@.subrange(0, k as int).push(src@[k as int]) =~= old(dst)@
            + src@.subrange(0, k + 1 as int));
        assert(src@.subrange(0, k as int).push(src@[k as int]) =~= src@.subrange(0, k + 1 as int));
        k = k + 1;
    }
    assert(src@.subrange(0, src@.len() as int) =~= src@);
}

/// The pieces of `s` between occurrences of `c`: splitting never loses bytes,
/// and `n` occurrences of `c` give `n + 1` pieces (a piece may be empty).
pub open spec fn split_byte(s: Seq<u8>, c: u8) -> Seq<Seq<u8>>
    decreases s.len(),
{
    if s.len() == 0 {
        seq![Seq::<u8>::empty()]
    } else if s[0] == c {
        seq![Seq::<u8>::empty()] + split_byte(s.drop_first(), c)
    } else {
        let rest = split_byte(s.drop_first(), c);
        seq![seq![s[0]] + rest[0]] + rest.drop_first()
    }
}

/// Splitting always yields at least one piece.
pub proof fn lemma_split_byte_len(s: Seq<u8>, c: u8)
    ensures
        split_byte(s, c).len() >= 1,
    decreases s.len(),
{
    if s.len() > 0 {
        lemma_split_byte_len(s.drop_first(), c);
    }
}

/// Split `s` on every occurrence of `c`.
pub fn split(s: &Vec<u8>, c: u8) -> (r: Vec<Vec<u8>>)
    ensures
        views(r@) == split_byte(s@, c),
        r@.len() >= 1,
{
    let mut done: Vec<Vec<u8>> = Vec::new();
    let mut cur: Vec<u8> = Vec::new();
    let mut k: usize = 0;
    proof {
        lemma_split_byte_len(s@, c);
        assert(s@.skip(0) =~= s@);
    }
    while k < s.len()
        invariant
            0 <= k <= s@.len(),
            split_byte(s@.skip(k as int), c).len() >= 1,
            split_byte(s@, c) =~= views(done@) + seq![cur@ + split_byte(s@.skip(k as int), c)[0]]
                + split_byte(s@.skip(k as int), c).drop_first(),
        decreases s@.len() - k,
    {
        let ghost pre = s@.skip(k as int);
        let ghost ts = split_byte(pre, c);
        proof {
            assert(pre[0] == s@[k as int]);
            assert(pre.drop_first() =~= s@.skip(k + 1 as int));
            lemma_split_byte_len(s@.skip(k + 1 as int), c);
        }
        if s[k] == c {
            let ghost dv = views(done@);
            let ghost cv = cur@;
            done.push(cur);
            cur = Vec::new();
            proof {
                let ts2 = split_byte(s@.skip(k + 1 as int), c);
                assert(ts =~~= seq![Seq::<u8>::empty()] + ts2);
                assert(cv + ts[0] =~= cv);
                assert(ts.drop_first() =~~= ts2);
                assert(views(done@) =~~= dv.push(cv));
                assert(cur@ + ts2[0] =~= ts2[0]);
                assert(views(done@) + seq![cur@ + ts2[0]] + ts2.drop_first() =~~= dv + seq![cv
                    + ts[0]] + ts.drop_first());
            }
        } else {
            let ghost cv = cur@;
            cur.push(s[k]);
            proof {
                let ts2 = split_byte(s@.skip(k + 1 as int), c);
                assert(ts =~= seq![seq![s@[k as int]] + ts2[0]] + ts2.drop_first());
                assert(cur@ + ts2[0] =~= cv + ts[0]);
                assert(views(done@) + seq![cur@ + ts2[0]] + ts2.drop_first() =~= split_byte(
                    s@,
                    c,
                ));
            }
        }
        k = k + 1;
    }
    proof {
        let ts = split_byte(s@.skip(k as int), c);
        assert(s@.skip(k as int) =~= Seq::<u8>::empty());
        assert(ts =~= seq![Seq::<u8>::empty()]);
        assert(cur@ + ts[0] =~= cur@);
    }
    let ghost dv = views(done@);
    done.push(cur);
    proof {
        assert(views(done@) =~= dv.push(cur@));
        assert(views(done@) =~= split_byte(s@, c));
    }
    done
}

/// The pieces of `pieces` concatenated with `sep` between consecutive pieces.
pub open spec fn join_with(pieces: Seq<Seq<u8>>, sep: Seq<u8>) -> Seq<u8>
    decreases pieces.len(),
{
    if pieces.len() == 0 {
        Seq::empty()
    } else if pieces.len() == 1 {
        pieces[0]
    } else {
        pieces[0] + sep + join_with(pieces.drop_first(), sep)
    }
}

/// Joining one more piece appends a separator and the piece.
pub proof fn lemma_join_push(pieces: Seq<Seq<u8>>, p: Seq<u8>, sep: Seq<u8>)
    ensures
        join_with(pieces.push(p), sep) == if pieces.len() == 0 {
            p
        } else {
            join_with(pieces, sep) + sep + p
        },
    decreases pieces.len(),
{
    if pieces.len() == 0 {
        assert(pieces.push(p)[0] =~= p);
    } else if pieces.len() == 1 {
        let q = pieces.push(p);
        assert(q.drop_first() =~= seq![p]);
        assert(join_with(q.drop_first(), sep) == p);
        assert(join_with(q, sep) == q[0] + sep + join_with(q.drop_first(), sep));
        assert(q[0] == pieces[0]);
    } else {
        assert(pieces.push(p).drop_first() =~= pieces.drop_first().push(p));
        lemma_join_push(pieces.drop_first(), p, sep);
    }
}

/// Join the pieces with `sep` between consecutive pieces.
pub fn join(pieces: &Vec<Vec<u8>>, sep: &Vec<u8>) -> (r: Vec<u8>)
    ensures
        r@ == join_with(views(pieces@), sep@),
{
    let mut out: Vec<u8> = Vec::new();
    let mut k: usize = 0;
    while k < pieces.len()
        invariant
            0 <= k <= pieces@.len(),
            out@ == join_with(views(pieces@).take(k as int), sep@),
        decreases pieces@.len() - k,
    {
        let ghost prefix = views(pieces@).take(k as int);
        if k > 0 {
            append_bytes(&mut out, sep);
        }
        append_bytes(&mut out, &pieces[k]);
        proof {
            lemma_join_push(prefix, pieces@[k as int]@, sep@);
            assert(prefix.push(pieces@[k as int]@) =~= views(pieces@).take(k + 1 as int));
        }
        k = k + 1;
    }
    proof {
        assert(views(pieces@).take(pieces@.len() as int) =~= views(pieces@));
    }
    out
}

/// Remove ASCII whitespace from both ends of `s`.
pub fn trim(s: &Vec<u8>) -> (r: Vec<u8>)
    ensures
        r@ == trim_spec(s@),
{
    let mut lo: usize = 0;
    while lo < s.len() && byte_is_space(s[lo])
        invariant
            0 <= lo <= s@.len(),
            forall|j: int| 0 <= j < lo ==> is_space(s@[j]),
        decreases s@.len() - lo,
    {
        lo = lo + 1;
    }
    proof {
        lemma_trim_start_range(s@, lo as int);
    }
    let mut hi: usize = s.len();
    while hi > lo && byte_is_space(s[hi - 1])
        invariant
            lo <= hi <= s@.len(),
            forall|j: int| hi <= j < s@.len() ==> is_space(s@[j]),
        decreases hi,
    {
        hi = hi - 1;
    }
    proof {
        let t = s@.subrange(lo as int, s@.len() as int);
        assert(forall|j: int| hi - lo <= j < t.len() ==> is_space(t[j]));
        lemma_trim_end_range(t, hi - lo);
        assert(t.subrange(0, hi - lo) =~= s@.subrange(lo as int, hi as int));
    }
    subvec(s, lo, hi)
}

} // verus!
