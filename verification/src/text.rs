//! Character-level text utilities: conversion between strings and character
//! vectors, and splitting / joining on a separator.
use vstd::prelude::*;

verus! {

/// Joins `pieces`, putting `sep` between each two consecutive pieces.
pub open spec fn join_with(pieces: Seq<Seq<char>>, sep: Seq<char>) -> Seq<char>
    decreases pieces.len(),
{
    if pieces.len() == 0 {
        seq![]
    } else if pieces.len() == 1 {
        pieces[0]
    } else {
        pieces[0] + sep + join_with(pieces.drop_first(), sep)
    }
}

/// The pieces of `s` between the occurrences of `sep`, where occurrences are
/// found from left to right and do not overlap: either `s` starts with `sep`
/// (an empty first piece, then the pieces of what follows the separator), or
/// its first character belongs to the first piece.
pub open spec fn split_on(s: Seq<char>, sep: Seq<char>) -> Seq<Seq<char>>
    decreases s.len(),
{
    if sep.len() == 0 || s.len() < sep.len() {
        seq![s]
    } else if s.take(sep.len() as int) == sep {
        seq![Seq::<char>::empty()] + split_on(s.skip(sep.len() as int), sep)
    } else {
        let rest = split_on(s.skip(1), sep);
        seq![seq![s[0]] + rest[0]] + rest.drop_first()
    }
}

/// `sep` occurs in `s` starting at index `i`.
pub open spec fn occurs_at(s: Seq<char>, sep: Seq<char>, i: int) -> bool {
    0 <= i && i + sep.len() <= s.len() && s.subrange(i, i + sep.len()) == sep
}

/// `sep` occurs somewhere in `s`.
pub open spec fn contains_seq(s: Seq<char>, sep: Seq<char>) -> bool {
    exists|i: int| occurs_at(s, sep, i)
}

/// Splitting always gives at least one piece, and the first piece is a prefix of `s`.
pub proof fn lemma_split_first_is_prefix(s: Seq<char>, sep: Seq<char>)
    ensures
        split_on(s, sep).len() >= 1,
        split_on(s, sep)[0].len() <= s.len(),
        split_on(s, sep)[0] == s.take(split_on(s, sep)[0].len() as int),
    decreases s.len(),
{
    if sep.len() == 0 || s.len() < sep.len() {
    } else if s.take(sep.len() as int) == sep {
        lemma_split_first_is_prefix(s.skip(sep.len() as int), sep);
    } else {
        lemma_split_first_is_prefix(s.skip(1), sep);
        let rest = split_on(s.skip(1), sep);
        assert(seq![s[0]] + rest[0] =~= s.take(rest[0].len() + 1int));
    }
}

/// Joining the pieces with the separator gives back the text that was split.
pub proof fn lemma_join_split(s: Seq<char>, sep: Seq<char>)
    requires
        sep.len() > 0,
    ensures
        join_with(split_on(s, sep), sep) == s,
    decreases s.len(),
{
    if s.len() < sep.len() {
    } else if s.take(sep.len() as int) == sep {
        let tail = s.skip(sep.len() as int);
        lemma_join_split(tail, sep);
        lemma_split_first_is_prefix(tail, sep);
        let ps = split_on(s, sep);
        assert(ps.drop_first() =~= split_on(tail, sep));
        assert(s =~= sep + tail);
        assert(join_with(ps, sep) == Seq::<char>::empty() + sep + join_with(split_on(tail, sep), sep));
    } else {
        let tail = s.skip(1);
        lemma_join_split(tail, sep);
        lemma_split_first_is_prefix(tail, sep);
        let rest = split_on(tail, sep);
        let ps = split_on(s, sep);
        assert(ps.drop_first() =~= rest.drop_first());
        if rest.len() == 1 {
            assert(s =~= seq![s[0]] + rest[0]);
        } else {
            assert(join_with(rest, sep) == rest[0] + sep + join_with(rest.drop_first(), sep));
            assert(s =~= seq![s[0]] + tail);
        }
    }
}

/// No piece of a split contains the separator.
pub proof fn lemma_split_pieces_free_of_sep(s: Seq<char>, sep: Seq<char>, k: int)
    requires
        sep.len() > 0,
        0 <= k < split_on(s, sep).len(),
    ensures
        !contains_seq(split_on(s, sep)[k], sep),
    decreases s.len(),
{
    if s.len() < sep.len() {
        assert forall|i: int| !occurs_at(s, sep, i) by {}
    } else if s.take(sep.len() as int) == sep {
        let tail = s.skip(sep.len() as int);
        if k > 0 {
            lemma_split_pieces_free_of_sep(tail, sep, k - 1);
        }
    } else {
        let tail = s.skip(1);
        let rest = split_on(tail, sep);
        lemma_split_first_is_prefix(tail, sep);
        if k > 0 {
            lemma_split_pieces_free_of_sep(tail, sep, k);
        } else {
            lemma_split_pieces_free_of_sep(tail, sep, 0);
            let p = seq![s[0]] + rest[0];
            assert(p =~= s.take(p.len() as int));
            assert forall|i: int| !occurs_at(p, sep, i) by {
                if occurs_at(p, sep, i) {
                    if i == 0 {
                        assert(p.subrange(0, sep.len() as int) =~= s.take(sep.len() as int));
                    } else {
                        assert(p.subrange(i, i + sep.len()) =~= rest[0].subrange(
                            i - 1,
                            i - 1 + sep.len(),
                        ));
                        assert(occurs_at(rest[0], sep, i - 1));
                    }
                }
            }
        }
    }
}

/// The character sequences held by a vector of character vectors.
pub open spec fn pieces_view(v: Seq<Vec<char>>) -> Seq<Seq<char>> {
    v.map_values(|x: Vec<char>| x@)
}

/// The characters of `s`, in order.
pub fn str_chars(s: &str) -> (r: Vec<char>)
    ensures
        r@ == s@,
{
    let mut r: Vec<char> = Vec::new();
    for c in it: s.chars()
        invariant
            r@ == it.seq().take(it.index() as int),
    {
        r.push(c);
    }
    r
}

/// The string made of the characters of `v`.
#[verifier::external_body]
pub(crate) fn string_from_chars(v: &[char]) -> (r: String)
    ensures
        r@ == v@,
{
    v.iter().collect()
}

/// Whether `sep` occurs in `s` at index `i`.
pub fn occurs_at_exec(s: &Vec<char>, sep: &Vec<char>, i: usize) -> (r: bool)
    requires
        i + sep.len() <= s.len(),
    ensures
        r == occurs_at(s@, sep@, i as int),
{
    let n = sep.len();
    let mut j: usize = 0;
    while j < n
        invariant
            n == sep.len(),
            j <= n,
            i + n <= s.len(),
            s@.subrange(i as int, i + j) == sep@.take(j as int),
        decreases n - j,
    {
        if s[i + j] != sep[j] {
            assert(s@.subrange(i as int, i + n)[j as int] != sep@[j as int]);
            return false;
        }
        assert(s@.subrange(i as int, i + j + 1) =~= s@.subrange(i as int, i + j).push(s@[i + j]));
        assert(sep@.take(j + 1) =~= sep@.take(j as int).push(sep@[j as int]));
        j = j + 1;
    }
    assert(sep@.take(n as int) =~= sep@);
    true
}

/// Splits `s` on the non-overlapping occurrences of `sep`, from left to right.
pub fn split_chars(s: &Vec<char>, sep: &Vec<char>) -> (r: Vec<Vec<char>>)
    requires
        sep.len() > 0,
    ensures
        pieces_view(r@) == split_on(s@, sep@),
{
    let n = s.len();
    let m = sep.len();
    let mut done: Vec<Vec<char>> = Vec::new();
    let mut cur: Vec<char> = Vec::new();
    let mut i: usize = 0;
    let ghost mut start: int = 0;
    proof {
        lemma_split_first_is_prefix(s@, sep@);
        assert(s@.skip(0) =~= s@);
        assert(s@.subrange(0, 0) =~= Seq::<char>::empty());
        let ps = split_on(s@, sep@);
        assert(ps =~= pieces_view(done@) + seq![cur@ + ps[0]] + ps.drop_first());
    }
    while m <= n - i
        invariant
            n == s.len(),
            m == sep.len(),
            m > 0,
            0 <= start <= i <= n,
            cur@ == s@.subrange(start, i as int),
            split_on(s@, sep@) == pieces_view(done@) + seq![
                cur@ + split_on(s@.skip(i as int), sep@)[0],
            ] + split_on(s@.skip(i as int), sep@).drop_first(),
        decreases n - i,
    {
        let ghost t = s@.skip(i as int);
        proof {
            assert(t.take(m as int) =~= s@.subrange(i as int, i + m));
        }
        if occurs_at_exec(s, sep, i) {
            proof {
                assert(t.skip(m as int) =~= s@.skip(i + m));
                lemma_split_first_is_prefix(s@.skip(i + m), sep@);
            }
            let ghost old_done = pieces_view(done@);
            let piece = cur;
            done.push(piece);
            cur = Vec::new();
            i = i + m;
            proof {
                start = i as int;
                assert(cur@ =~= s@.subrange(start, i as int));
                let ps = split_on(s@.skip(i as int), sep@);
                assert(pieces_view(done@) =~= old_done.push(piece@));
                assert(split_on(t, sep@) =~= seq![Seq::<char>::empty()] + ps);
                assert(split_on(s@, sep@) =~= pieces_view(done@) + seq![cur@ + ps[0]]
                    + ps.drop_first());
            }
        } else {
            proof {
                assert(t.skip(1) =~= s@.skip(i + 1));
                assert(t[0] == s@[i as int]);
                lemma_split_first_is_prefix(s@.skip(i + 1), sep@);
            }
            let c = s[i];
            let ghost old_cur = cur@;
            cur.push(c);
            i = i + 1;
            proof {
                assert(cur@ =~= s@.subrange(start, i as int));
                let ps = split_on(s@.skip(i as int), sep@);
                assert(split_on(t, sep@) == seq![seq![c] + ps[0]] + ps.drop_first());
                assert(old_cur + (seq![c] + ps[0]) =~= cur@ + ps[0]);
                assert(split_on(t, sep@).drop_first() =~= ps.drop_first());
            }
        }
    }
    proof {
        let ghost t = s@.skip(i as int);
        assert(split_on(t, sep@) == seq![t]);
        assert(cur@ + t =~= s@.subrange(start, n as int));
    }
    // The rest of the text is too short to hold the separator.
    let mut k: usize = i;
    while k < n
        invariant
            n == s.len(),
            0 <= start <= i <= k <= n,
            cur@ == s@.subrange(start, k as int),
        decreases n - k,
    {
        cur.push(s[k]);
        k = k + 1;
        assert(cur@ =~= s@.subrange(start, k as int));
    }
    let ghost old_done = pieces_view(done@);
    done.push(cur);
    proof {
        let ghost t = s@.skip(i as int);
        assert(s@.subrange(start, i as int) + t =~= s@.subrange(start, n as int));
        assert(pieces_view(done@) =~= old_done.push(s@.subrange(start, n as int)));
        assert(split_on(s@, sep@) =~= pieces_view(done@));
    }
    done
}

} // verus!
