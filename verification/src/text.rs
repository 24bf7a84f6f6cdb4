//! Character-level text operations on `str`, `String` and `Vec<char>`,
//! with their meaning stated over `Seq<char>`.
use vstd::prelude::*;

verus! {

broadcast use vstd::string::group_string_axioms;

/// `pat` occurs in `s` starting at position `i`.
pub open spec fn occurs_at(s: Seq<char>, i: int, pat: Seq<char>) -> bool {
    &&& 0 <= i
    &&& i + pat.len() <= s.len()
    &&& s.subrange(i, i + pat.len()) == pat
}

/// `s` with every match of `from` replaced by `to`: matches are taken
/// from left to right and never overlap. An empty `from` matches at every
/// character boundary, the start and the end included.
pub open spec fn replaced(s: Seq<char>, from: Seq<char>, to: Seq<char>) -> Seq<char>
    decreases s.len(),
{
    if from.len() == 0 {
        if s.len() == 0 {
            to
        } else {
            to + seq![s[0]] + replaced(s.drop_first(), from, to)
        }
    } else if s.len() == 0 {
        s
    } else if occurs_at(s, 0, from) {
        to + replaced(s.skip(from.len() as int), from, to)
    } else {
        seq![s[0]] + replaced(s.drop_first(), from, to)
    }
}

/// `String::push`: the contract claims that the string afterwards holds
/// its old characters followed by `c`, which is what std documents
/// ("appends the given char to the end of this String").
#[verifier::external_body]
fn string_push(s: &mut String, c: char)
    ensures
        final(s)@ == old(s)@.push(c),
{
    s.push(c);
}

/// The characters of a string slice, in order.
pub fn to_chars(s: &str) -> (v: Vec<char>)
    ensures
        v@ == s@,
{
    let mut v: Vec<char> = Vec::new();
    for c in it: s.chars()
        invariant
            it.seq() == s@,
            v@ == it.seq().take(it.index()),
    {
        v.push(c);
        assert(v@ =~= it.seq().take(it.index() + 1));
    }
    assert(v@ =~= s@);
    v
}

/// Whether two string slices hold the same characters.
pub fn str_equal(a: &str, b: &str) -> (r: bool)
    ensures
        r == (a@ == b@),
{
    let av = to_chars(a);
    let bv = to_chars(b);
    if av.len() != bv.len() {
        return false;
    }
    let mut i: usize = 0;
    while i < av.len()
        invariant
            av@ == a@,
            bv@ == b@,
            av.len() == bv.len(),
            i <= av.len(),
            forall|j: int| 0 <= j < i ==> av@[j] == bv@[j],
        decreases av.len() - i,
    {
        if av[i] != bv[i] {
            return false;
        }
        i = i + 1;
    }
    assert(av@ =~= bv@);
    true
}

/// A string made of the given characters, in order.
pub fn from_chars(v: &Vec<char>) -> (s: String)
    ensures
        s@ == v@,
{
    let mut s = String::new();
    let mut i: usize = 0;
    while i < v.len()
        invariant
            i <= v.len(),
            s@ == v@.take(i as int),
        decreases v.len() - i,
    {
        string_push(&mut s, v[i]);
        i = i + 1;
        assert(s@ =~= v@.take(i as int));
    }
    assert(s@ =~= v@);
    s
}

/// Appends the characters of `src` to `out`.
pub fn push_all(out: &mut Vec<char>, src: &Vec<char>)
    ensures
        final(out)@ == old(out)@ + src@,
{
    let mut i: usize = 0;
    while i < src.len()
        invariant
            i <= src.len(),
            out@ == old(out)@ + src@.take(i as int),
        decreases src.len() - i,
    {
        out.push(src[i]);
        i = i + 1;
        assert(out@ =~= old(out)@ + src@.take(i as int));
    }
    assert(src@.take(src.len() as int) =~= src@);
}

/// Whether `pat` occurs in `s` starting at position `i`.
fn occurs_at_exec(s: &Vec<char>, i: usize, pat: &Vec<char>) -> (r: bool)
    requires
        i <= s.len(),
    ensures
        r == occurs_at(s@, i as int, pat@),
{
    if pat.len() > s.len() - i {
        return false;
    }
    let mut j: usize = 0;
    while j < pat.len()
        invariant
            i + pat.len() <= s.len(),
            j <= pat.len(),
            forall|k: int| 0 <= k < j ==> s@[i + k] == pat@[k],
        decreases pat.len() - j,
    {
        if s[i + j] != pat[j] {
            assert(s@.subrange(i as int, i + pat.len())[j as int] != pat@[j as int]);
            return false;
        }
        j = j + 1;
    }
    assert(s@.subrange(i as int, i + pat.len()) =~= pat@);
    true
}

/// Unfolds `replaced` once on a suffix of `s` that starts with a match.
proof fn lemma_replaced_match(s: Seq<char>, i: int, from: Seq<char>, to: Seq<char>)
    requires
        from.len() > 0,
        occurs_at(s, i, from),
    ensures
        replaced(s.skip(i), from, to) == to + replaced(s.skip(i + from.len()), from, to),
{
    let r = s.skip(i);
    assert(r.subrange(0, from.len() as int) =~= s.subrange(i, i + from.len()));
    assert(r.skip(from.len() as int) =~= s.skip(i + from.len()));
}

/// Unfolds `replaced` once on a non-empty suffix of `s` that starts with no match.
proof fn lemma_replaced_no_match(s: Seq<char>, i: int, from: Seq<char>, to: Seq<char>)
    requires
        from.len() > 0,
        0 <= i < s.len(),
        !occurs_at(s, i, from),
    ensures
        replaced(s.skip(i), from, to) == seq![s[i]] + replaced(s.skip(i + 1), from, to),
{
    let r = s.skip(i);
    if r.len() >= from.len() {
        assert(r.subrange(0, from.len() as int) =~= s.subrange(i, i + from.len()));
    }
    assert(r.drop_first() =~= s.skip(i + 1));
}

/// Unfolds `replaced` once, for an empty pattern, on a non-empty suffix of `s`.
proof fn lemma_replaced_empty(s: Seq<char>, i: int, to: Seq<char>)
    requires
        0 <= i < s.len(),
    ensures
        replaced(s.skip(i), Seq::<char>::empty(), to) == to + seq![s[i]] + replaced(
            s.skip(i + 1),
            Seq::<char>::empty(),
            to,
        ),
{
    assert(s.skip(i).drop_first() =~= s.skip(i + 1));
}

/// `s` with every match of `from` replaced by `to`, as `replaced` states.
pub fn replace_chars(s: &Vec<char>, from: &Vec<char>, to: &Vec<char>) -> (r: Vec<char>)
    ensures
        r@ == replaced(s@, from@, to@),
{
    let mut out: Vec<char> = Vec::new();
    let mut i: usize = 0;
    assert(s@.skip(0) =~= s@);
    if from.len() == 0 {
        assert(from@ =~= Seq::<char>::empty());
        while i < s.len()
            invariant
                from@ == Seq::<char>::empty(),
                i <= s.len(),
                replaced(s@, from@, to@) == out@ + replaced(s@.skip(i as int), from@, to@),
            decreases s.len() - i,
        {
            proof {
                lemma_replaced_empty(s@, i as int, to@);
            }
            let ghost before = out@;
            push_all(&mut out, to);
            out.push(s[i]);
            i = i + 1;
            assert(before + (to@ + seq![s@[i - 1]] + replaced(s@.skip(i as int), from@, to@))
                =~= out@ + replaced(s@.skip(i as int), from@, to@));
        }
        assert(s@.skip(i as int) =~= Seq::<char>::empty());
        push_all(&mut out, to);
    } else {
        while i < s.len()
            invariant
                from.len() > 0,
                i <= s.len(),
                replaced(s@, from@, to@) == out@ + replaced(s@.skip(i as int), from@, to@),
            decreases s.len() - i,
        {
            let ghost before = out@;
            let ghost at = i as int;
            if occurs_at_exec(s, i, from) {
                proof {
                    lemma_replaced_match(s@, at, from@, to@);
                }
                push_all(&mut out, to);
                i = i + from.len();
                assert(before + (to@ + replaced(s@.skip(i as int), from@, to@))
                    =~= out@ + replaced(s@.skip(i as int), from@, to@));
            } else {
                proof {
                    lemma_replaced_no_match(s@, at, from@, to@);
                }
                out.push(s[i]);
                i = i + 1;
                assert(before + (seq![s@[at]] + replaced(s@.skip(i as int), from@, to@))
                    =~= out@ + replaced(s@.skip(i as int), from@, to@));
            }
        }
        assert(s@.skip(i as int) =~= Seq::<char>::empty());
    }
    assert(out@ + to@ =~= out@ + to@);
    out
}

/// `s` with every match of `from` replaced by `to`, matches taken from
/// left to right without overlap, as `replaced` states.
pub fn replace_all(s: &str, from: &str, to: &str) -> (r: String)
    ensures
        r@ == replaced(s@, from@, to@),
{
    let sv = to_chars(s);
    let fv = to_chars(from);
    let tv = to_chars(to);
    let rv = replace_chars(&sv, &fv, &tv);
    from_chars(&rv)
}

/// `w` occurs somewhere in `s`.
pub open spec fn occurs_in(s: Seq<char>, w: Seq<char>) -> bool {
    exists|k: int| occurs_at(s, k, w)
}

/// `a` and `b` hold the same characters where both have one.
pub open spec fn agree(a: Seq<char>, b: Seq<char>) -> bool {
    forall|t: int| 0 <= t < a.len() && t < b.len() ==> a[t] == b[t]
}

/// No match of `from` can start inside `p`: `from` agrees with no suffix of
/// `p`, `p` itself included.
pub open spec fn no_match_starts_in(from: Seq<char>, p: Seq<char>) -> bool {
    forall|j: int| 0 <= j < p.len() ==> !agree(from, #[trigger] p.skip(j))
}

/// No match of `from` can overlap an occurrence of the non-empty text `w`:
/// none can start inside `w`, and no proper suffix of `from` runs into `w`.
pub open spec fn cannot_overlap(from: Seq<char>, w: Seq<char>) -> bool {
    &&& from.len() > 0
    &&& w.len() > 0
    &&& no_match_starts_in(from, w)
    &&& forall|j: int| 0 < j < from.len() ==> !agree(#[trigger] from.skip(j), w)
}

/// The text `x` with the character `b1` just before it and `b2` just after.
pub open spec fn framed(b1: char, x: Seq<char>, b2: char) -> Seq<char> {
    seq![b1] + x + seq![b2]
}

/// Replacing never brings in a character that neither the text nor the
/// replacement holds.
pub proof fn law_replaced_adds_no_character(s: Seq<char>, from: Seq<char>, to: Seq<char>, c: char)
    requires
        !s.contains(c),
        !to.contains(c),
    ensures
        !replaced(s, from, to).contains(c),
    decreases s.len(),
{
    let r = replaced(s, from, to);
    if s.len() == 0 {
    } else {
        let rest = if from.len() > 0 && occurs_at(s, 0, from) {
            s.skip(from.len() as int)
        } else {
            s.drop_first()
        };
        assert(!rest.contains(c)) by {
            if rest.contains(c) {
                let k = choose|k: int| 0 <= k < rest.len() && rest[k] == c;
                if from.len() > 0 && occurs_at(s, 0, from) {
                    assert(s[k + from.len()] == c);
                } else {
                    assert(s[k + 1] == c);
                }
            }
        }
        law_replaced_adds_no_character(rest, from, to, c);
        let tail = replaced(rest, from, to);
        assert(!seq![s[0]].contains(c)) by {
            assert(s[0] != c);
            if seq![s[0]].contains(c) {
                let k = choose|k: int| 0 <= k < 1 && seq![s[0]][k] == c;
            }
        }
        if r.contains(c) {
            let k = choose|k: int| 0 <= k < r.len() && r[k] == c;
            if from.len() == 0 {
                assert(r == to + seq![s[0]] + tail);
                if k < to.len() {
                    assert(to[k] == c);
                } else if k == to.len() {
                    assert(s[0] == c);
                } else {
                    assert(tail[k - to.len() - 1] == c);
                }
            } else if occurs_at(s, 0, from) {
                assert(r == to + tail);
                if k < to.len() {
                    assert(to[k] == c);
                } else {
                    assert(tail[k - to.len()] == c);
                }
            } else {
                assert(r == seq![s[0]] + tail);
                if k == 0 {
                    assert(s[0] == c);
                } else {
                    assert(tail[k - 1] == c);
                }
            }
        }
    }
}

/// Replacing a non-empty pattern keeps a text at the start of `s` inside
/// which no match of the pattern can start.
pub proof fn law_replaced_keeps_prefix(s: Seq<char>, p: Seq<char>, from: Seq<char>, to: Seq<char>)
    requires
        from.len() > 0,
        occurs_at(s, 0, p),
        no_match_starts_in(from, p),
    ensures
        occurs_at(replaced(s, from, to), 0, p),
    decreases p.len(),
{
    let r = replaced(s, from, to);
    if p.len() == 0 {
        assert(r.subrange(0, 0) =~= p);
    } else {
        assert(s[0] == s.subrange(0, p.len() as int)[0]);
        assert(s[0] == p[0]);
        if occurs_at(s, 0, from) {
            assert(p.skip(0) =~= p);
            assert(agree(from, p.skip(0))) by {
                assert forall|t: int| 0 <= t < from.len() && t < p.skip(0).len() implies from[t] == p.skip(0)[t] by {
                    assert(s.subrange(0, from.len() as int)[t] == from[t]);
                    assert(s.subrange(0, p.len() as int)[t] == p[t]);
                }
            }
            assert(false);
        }
        let s1 = s.drop_first();
        let p1 = p.drop_first();
        assert(s1.subrange(0, p1.len() as int) =~= p1) by {
            assert forall|t: int| 0 <= t < p1.len() implies s1.subrange(0, p1.len() as int)[t] == p1[t] by {
                assert(s.subrange(0, p.len() as int)[t + 1] == p[t + 1]);
            }
        }
        assert(no_match_starts_in(from, p1)) by {
            assert forall|j: int| 0 <= j < p1.len() implies !agree(from, #[trigger] p1.skip(j)) by {
                assert(p1.skip(j) =~= p.skip(j + 1));
            }
        }
        law_replaced_keeps_prefix(s1, p1, from, to);
        let tail = replaced(s1, from, to);
        assert(r == seq![s[0]] + tail);
        assert(r.subrange(0, p.len() as int) =~= p) by {
            assert forall|t: int| 0 <= t < p.len() implies r.subrange(0, p.len() as int)[t] == p[t] by {
                if t > 0 {
                    assert(tail.subrange(0, p1.len() as int)[t - 1] == p1[t - 1]);
                }
            }
        }
    }
}

/// Replacing a pattern keeps every occurrence of a text that no match of the
/// pattern can overlap.
pub proof fn law_replaced_keeps_text(s: Seq<char>, k: int, w: Seq<char>, from: Seq<char>, to: Seq<char>)
    requires
        cannot_overlap(from, w),
        occurs_at(s, k, w),
    ensures
        occurs_in(replaced(s, from, to), w),
    decreases s.len(),
{
    let r = replaced(s, from, to);
    if k == 0 {
        law_replaced_keeps_prefix(s, w, from, to);
        assert(occurs_at(r, 0, w));
    } else if occurs_at(s, 0, from) {
        let flen = from.len() as int;
        if k < flen {
            assert(agree(from.skip(k), w)) by {
                assert forall|t: int| 0 <= t < from.skip(k).len() && t < w.len() implies from.skip(k)[t] == w[t] by {
                    assert(s.subrange(0, flen)[k + t] == from[k + t]);
                    assert(s.subrange(k, k + w.len())[t] == w[t]);
                }
            }
            assert(false);
        }
        let rest = s.skip(flen);
        assert(rest.subrange(k - flen, k - flen + w.len()) =~= s.subrange(k, k + w.len()));
        law_replaced_keeps_text(rest, k - flen, w, from, to);
        let tail = replaced(rest, from, to);
        let k2 = choose|k2: int| occurs_at(tail, k2, w);
        assert(r == to + tail);
        assert(r.subrange(to.len() + k2, to.len() + k2 + w.len()) =~= tail.subrange(k2, k2 + w.len()));
        assert(occurs_at(r, to.len() + k2, w));
    } else {
        let rest = s.drop_first();
        assert(rest.subrange(k - 1, k - 1 + w.len()) =~= s.subrange(k, k + w.len()));
        law_replaced_keeps_text(rest, k - 1, w, from, to);
        let tail = replaced(rest, from, to);
        let k2 = choose|k2: int| occurs_at(tail, k2, w);
        assert(r == seq![s[0]] + tail);
        assert(r.subrange(1 + k2, 1 + k2 + w.len()) =~= tail.subrange(k2, k2 + w.len()));
        assert(occurs_at(r, 1 + k2, w));
    }
}

/// A non-empty pattern cannot overlap a non-empty text when the text lacks
/// the pattern's first character and the pattern lacks the text's first one
/// after its own first position.
pub proof fn lemma_cannot_overlap_by_first_chars(from: Seq<char>, w: Seq<char>)
    requires
        from.len() > 0,
        w.len() > 0,
        !w.contains(from[0]),
        forall|j: int| 0 < j < from.len() ==> from[j] != w[0],
    ensures
        cannot_overlap(from, w),
{
    assert forall|j: int| 0 < j < from.len() implies !agree(#[trigger] from.skip(j), w) by {
        assert(from.skip(j)[0] == from[j]);
    }
    assert forall|j: int| 0 <= j < w.len() implies !agree(from, #[trigger] w.skip(j)) by {
        assert(w.skip(j)[0] == w[j]);
        if w[j] == from[0] {
            assert(w.contains(from[0]));
        }
    }
}

/// Replacing a pattern that holds neither of two characters turns each
/// occurrence of the pattern framed by them into the replacement, framed by
/// the same characters.
pub proof fn law_replaced_translates_framed(
    s: Seq<char>,
    k: int,
    b1: char,
    b2: char,
    from: Seq<char>,
    to: Seq<char>,
)
    requires
        from.len() > 0,
        !from.contains(b1),
        !from.contains(b2),
        occurs_at(s, k, framed(b1, from, b2)),
    ensures
        occurs_in(replaced(s, from, to), framed(b1, to, b2)),
    decreases s.len(),
{
    let w = framed(b1, from, b2);
    let v = framed(b1, to, b2);
    let r = replaced(s, from, to);
    let flen = from.len() as int;
    assert(s.subrange(k, k + w.len())[0] == w[0]);
    assert(s[k] == b1);
    if k == 0 {
        if occurs_at(s, 0, from) {
            assert(s.subrange(0, flen)[0] == from[0]);
            assert(from.contains(b1));
        }
        assert(r == seq![s[0]] + replaced(s.drop_first(), from, to));
        let s1 = s.drop_first();
        assert(s1.subrange(0, flen) =~= from) by {
            assert forall|t: int| 0 <= t < flen implies s1.subrange(0, flen)[t] == from[t] by {
                assert(s.subrange(0, w.len() as int)[t + 1] == w[t + 1]);
            }
        }
        lemma_replaced_match(s1, 0, from, to);
        assert(s1.skip(0) =~= s1);
        let s2 = s1.skip(flen);
        assert(s2.subrange(0, 1) =~= seq![b2]) by {
            assert(s.subrange(0, w.len() as int)[flen + 1] == w[flen + 1]);
        }
        assert(no_match_starts_in(from, seq![b2])) by {
            assert forall|j: int| 0 <= j < 1 implies !agree(from, #[trigger] seq![b2].skip(j)) by {
                assert(seq![b2].skip(0)[0] == b2);
                if from[0] == b2 {
                    assert(from.contains(b2));
                }
            }
        }
        law_replaced_keeps_prefix(s2, seq![b2], from, to);
        let tail = replaced(s2, from, to);
        assert(tail.subrange(0, 1)[0] == b2);
        assert(r == seq![b1] + (to + tail));
        assert(r.subrange(0, v.len() as int) =~= v) by {
            assert forall|t: int| 0 <= t < v.len() implies r.subrange(0, v.len() as int)[t] == v[t] by {
                if t == v.len() - 1 {
                    assert(r[t] == tail[0]);
                }
            }
        }
        assert(occurs_at(r, 0, v));
    } else if occurs_at(s, 0, from) {
        if k < flen {
            assert(s.subrange(0, flen)[k] == from[k]);
            assert(from.contains(b1));
        }
        let rest = s.skip(flen);
        assert(rest.subrange(k - flen, k - flen + w.len()) =~= s.subrange(k, k + w.len()));
        law_replaced_translates_framed(rest, k - flen, b1, b2, from, to);
        let tail = replaced(rest, from, to);
        let k2 = choose|k2: int| occurs_at(tail, k2, v);
        assert(r == to + tail);
        assert(r.subrange(to.len() + k2, to.len() + k2 + v.len()) =~= tail.subrange(k2, k2 + v.len()));
        assert(occurs_at(r, to.len() + k2, v));
    } else {
        let rest = s.drop_first();
        assert(rest.subrange(k - 1, k - 1 + w.len()) =~= s.subrange(k, k + w.len()));
        law_replaced_translates_framed(rest, k - 1, b1, b2, from, to);
        let tail = replaced(rest, from, to);
        let k2 = choose|k2: int| occurs_at(tail, k2, v);
        assert(r == seq![s[0]] + tail);
        assert(r.subrange(1 + k2, 1 + k2 + v.len()) =~= tail.subrange(k2, k2 + v.len()));
        assert(occurs_at(r, 1 + k2, v));
    }
}

/// Every character of `s` is ASCII.
pub open spec fn all_ascii(s: Seq<char>) -> bool {
    forall|t: int| 0 <= t < s.len() ==> (s[t] as u32) < 128
}

/// No match of a non-empty pattern can start inside a text that lacks the
/// pattern's first character.
pub proof fn lemma_no_match_starts_by_first_char(from: Seq<char>, p: Seq<char>)
    requires
        from.len() > 0,
        !p.contains(from[0]),
    ensures
        no_match_starts_in(from, p),
{
    assert forall|j: int| 0 <= j < p.len() implies !agree(from, #[trigger] p.skip(j)) by {
        assert(p.skip(j)[0] == p[j]);
        if p[j] == from[0] {
            assert(p.contains(from[0]));
        }
    }
}

/// An ASCII text lacks every character outside ASCII.
pub proof fn lemma_ascii_lacks(s: Seq<char>, c: char)
    requires
        all_ascii(s),
        (c as u32) >= 128,
    ensures
        !s.contains(c),
{
    if s.contains(c) {
        let k = choose|k: int| 0 <= k < s.len() && s[k] == c;
    }
}

/// The front of `replaced(s, from, to)`: its first `n` characters are those
/// of `s`, or a replacement starts before position `n` and all before it is
/// as in `s`.
proof fn lemma_replaced_front(s: Seq<char>, from: Seq<char>, to: Seq<char>, n: int)
    requires
        from.len() > 0,
        0 <= n <= replaced(s, from, to).len(),
    ensures
        ({
            let r = replaced(s, from, to);
            ||| n <= s.len() && r.subrange(0, n) == s.subrange(0, n)
            ||| exists|m: int|
                0 <= m < n && m <= s.len() && occurs_at(r, m, to) && #[trigger] r.subrange(0, m) == s.subrange(0, m)
        }),
    decreases s.len(),
{
    let r = replaced(s, from, to);
    if n == 0 {
        assert(r.subrange(0, 0) =~= s.subrange(0, 0));
    } else if s.len() == 0 {
    } else if occurs_at(s, 0, from) {
        assert(r == to + replaced(s.skip(from.len() as int), from, to));
        assert(r.subrange(0, to.len() as int) =~= to);
        assert(r.subrange(0, 0) =~= s.subrange(0, 0));
        assert(occurs_at(r, 0, to));
    } else {
        let s1 = s.drop_first();
        let r1 = replaced(s1, from, to);
        assert(r == seq![s[0]] + r1);
        lemma_replaced_front(s1, from, to, n - 1);
        if n - 1 <= s1.len() && r1.subrange(0, n - 1) == s1.subrange(0, n - 1) {
            assert(r.subrange(0, n) =~= s.subrange(0, n)) by {
                assert forall|t: int| 0 <= t < n implies r.subrange(0, n)[t] == s.subrange(0, n)[t] by {
                    if t > 0 {
                        assert(r1.subrange(0, n - 1)[t - 1] == s1.subrange(0, n - 1)[t - 1]);
                    }
                }
            }
        } else {
            let m1 = choose|m: int|
                0 <= m < n - 1 && m <= s1.len() && occurs_at(r1, m, to) && #[trigger] r1.subrange(0, m) == s1.subrange(0, m);
            assert(r.subrange(1 + m1, 1 + m1 + to.len()) =~= r1.subrange(m1, m1 + to.len()));
            assert(r.subrange(0, 1 + m1) =~= s.subrange(0, 1 + m1)) by {
                assert forall|t: int| 0 <= t < 1 + m1 implies #[trigger] r.subrange(0, 1 + m1)[t] == s.subrange(0, 1 + m1)[t] by {
                    if t > 0 {
                        assert(r1.subrange(0, m1)[t - 1] == s1.subrange(0, m1)[t - 1]);
                    }
                }
            }
            assert(occurs_at(r, 1 + m1, to));
        }
    }
}

/// Replacing never leaves an occurrence of a text whose first and last
/// characters the replacement lacks and that does not hold the replacement,
/// when the text is the pattern itself or did not occur before: every match
/// of the pattern is gone, and no such text is made anew.
pub proof fn law_replaced_leaves_no_text(s: Seq<char>, from: Seq<char>, to: Seq<char>, w: Seq<char>)
    requires
        from.len() > 0,
        w.len() > 0,
        !to.contains(w[0]),
        !to.contains(w[w.len() - 1]),
        !occurs_in(w, to),
        w == from || !occurs_in(s, w),
    ensures
        !occurs_in(replaced(s, from, to), w),
    decreases s.len(),
{
    let r = replaced(s, from, to);
    let wlen = w.len() as int;
    if occurs_in(r, w) {
        let q = choose|q: int| occurs_at(r, q, w);
        assert(r.subrange(q, q + wlen)[0] == w[0]);
        if s.len() == 0 {
        } else if occurs_at(s, 0, from) {
            let flen = from.len() as int;
            let rest = s.skip(flen);
            let tail = replaced(rest, from, to);
            assert(r == to + tail);
            if q < to.len() {
                assert(to[q] == w[0]);
                assert(to.contains(w[0]));
            } else {
                assert(tail.subrange(q - to.len(), q - to.len() + wlen) =~= r.subrange(q, q + wlen));
                if w != from && occurs_in(rest, w) {
                    let k = choose|k: int| occurs_at(rest, k, w);
                    assert(s.subrange(k + flen, k + flen + wlen) =~= rest.subrange(k, k + wlen));
                    assert(occurs_at(s, k + flen, w));
                }
                law_replaced_leaves_no_text(rest, from, to, w);
                assert(occurs_at(tail, q - to.len(), w));
            }
        } else {
            let s1 = s.drop_first();
            let tail = replaced(s1, from, to);
            assert(r == seq![s[0]] + tail);
            if w != from && occurs_in(s1, w) {
                let k = choose|k: int| occurs_at(s1, k, w);
                assert(s.subrange(k + 1, k + 1 + wlen) =~= s1.subrange(k, k + wlen));
                assert(occurs_at(s, k + 1, w));
            }
            if q >= 1 {
                assert(tail.subrange(q - 1, q - 1 + wlen) =~= r.subrange(q, q + wlen));
                law_replaced_leaves_no_text(s1, from, to, w);
                assert(occurs_at(tail, q - 1, w));
            } else {
                lemma_replaced_front(s1, from, to, wlen - 1);
                if wlen - 1 <= s1.len() && tail.subrange(0, wlen - 1) == s1.subrange(0, wlen - 1) {
                    assert(s.subrange(0, wlen) =~= w) by {
                        assert forall|t: int| 0 <= t < wlen implies s.subrange(0, wlen)[t] == w[t] by {
                            assert(r.subrange(0, wlen)[t] == w[t]);
                            if t > 0 {
                                assert(tail.subrange(0, wlen - 1)[t - 1] == s1.subrange(0, wlen - 1)[t - 1]);
                            }
                        }
                    }
                    assert(occurs_at(s, 0, w));
                } else {
                    let m = choose|m: int|
                        0 <= m < wlen - 1 && m <= s1.len() && occurs_at(tail, m, to) && #[trigger] tail.subrange(0, m) == s1.subrange(0, m);
                    let tl = to.len() as int;
                    assert(tail.subrange(m, m + tl) == to);
                    if 1 + m + tl <= wlen {
                        assert(w.subrange(1 + m, 1 + m + tl) =~= to) by {
                            assert forall|t: int| 0 <= t < tl implies #[trigger] w.subrange(1 + m, 1 + m + tl)[t] == to[t] by {
                                assert(r.subrange(0, wlen)[1 + m + t] == w[1 + m + t]);
                                assert(tail.subrange(m, m + tl)[t] == to[t]);
                            }
                        }
                        assert(occurs_at(w, 1 + m, to));
                    } else {
                        let t = wlen - 2 - m;
                        assert(r.subrange(0, wlen)[wlen - 1] == w[wlen - 1]);
                        assert(tail.subrange(m, m + tl)[t] == to[t]);
                        assert(to[t] == w[wlen - 1]);
                        assert(to.contains(w[wlen - 1]));
                    }
                }
            }
        }
    }
}

/// A text does not hold a non-empty text whose first character it lacks.
pub proof fn lemma_absent_by_first_char(s: Seq<char>, w: Seq<char>)
    requires
        w.len() > 0,
        !s.contains(w[0]),
    ensures
        !occurs_in(s, w),
{
    if occurs_in(s, w) {
        let k = choose|k: int| occurs_at(s, k, w);
        assert(s.subrange(k, k + w.len())[0] == w[0]);
        assert(s[k] == w[0]);
    }
}

/// Replacing a pattern whose first character a text lacks leaves the text
/// as it is.
pub proof fn law_replaced_identity(s: Seq<char>, from: Seq<char>, to: Seq<char>)
    requires
        from.len() > 0,
        !s.contains(from[0]),
    ensures
        replaced(s, from, to) == s,
    decreases s.len(),
{
    if s.len() > 0 {
        if occurs_at(s, 0, from) {
            assert(s.subrange(0, from.len() as int)[0] == s[0]);
            assert(s.contains(from[0]));
        }
        let s1 = s.drop_first();
        assert(!s1.contains(from[0])) by {
            if s1.contains(from[0]) {
                let k = choose|k: int| 0 <= k < s1.len() && s1[k] == from[0];
                assert(s[k + 1] == from[0]);
            }
        }
        law_replaced_identity(s1, from, to);
        assert(seq![s[0]] + s1 =~= s);
    }
}

/// A tail that holds neither the first nor the last character of a
/// non-empty pattern comes through replacing unchanged, after the replaced
/// text before it.
pub proof fn law_replaced_splits_before_tail(a: Seq<char>, f: Seq<char>, from: Seq<char>, to: Seq<char>)
    requires
        from.len() > 0,
        !f.contains(from[0]),
        !f.contains(from[from.len() - 1]),
    ensures
        replaced(a + f, from, to) == replaced(a, from, to) + f,
    decreases a.len(),
{
    let s = a + f;
    let flen = from.len() as int;
    if a.len() == 0 {
        assert(s =~= f);
        law_replaced_identity(f, from, to);
        assert(replaced(a, from, to) + f =~= f);
    } else if occurs_at(s, 0, from) {
        if flen > a.len() {
            assert(s.subrange(0, flen)[flen - 1] == from[flen - 1]);
            assert(f[flen - 1 - a.len()] == from[flen - 1]);
            assert(f.contains(from[flen - 1]));
        }
        assert(a.subrange(0, flen) =~= s.subrange(0, flen));
        assert(s.skip(flen) =~= a.skip(flen) + f);
        law_replaced_splits_before_tail(a.skip(flen), f, from, to);
        assert(replaced(s, from, to) == to + replaced(a.skip(flen) + f, from, to));
        assert(replaced(a, from, to) == to + replaced(a.skip(flen), from, to));
        assert(to + (replaced(a.skip(flen), from, to) + f) =~= (to + replaced(a.skip(flen), from, to)) + f);
    } else {
        if occurs_at(a, 0, from) {
            assert(s.subrange(0, flen) =~= a.subrange(0, flen));
        }
        assert(s.drop_first() =~= a.drop_first() + f);
        law_replaced_splits_before_tail(a.drop_first(), f, from, to);
        assert(s[0] == a[0]);
        assert(replaced(s, from, to) == seq![s[0]] + replaced(a.drop_first() + f, from, to));
        assert(replaced(a, from, to) == seq![a[0]] + replaced(a.drop_first(), from, to));
        assert(seq![a[0]] + (replaced(a.drop_first(), from, to) + f) =~= (seq![a[0]] + replaced(a.drop_first(), from, to)) + f);
    }
}

/// A string slice whose characters are all ASCII has an ASCII view.
pub proof fn lemma_ascii_str(s: &str)
    requires
        s.is_ascii(),
    ensures
        all_ascii(s@),
{
    assert forall|t: int| 0 <= t < s@.len() implies (s@[t] as u32) < 128 by {
        assert('\0' <= s@[t] <= '\u{7f}');
    }
}

} // verus!
