//! Character-level text helpers shared by the link parser and the
//! config builders: whitespace trimming, searching and slicing.

use vstd::prelude::*;

verus! {

/// The Unicode `White_Space` property.
pub open spec fn is_white_space(c: char) -> bool {
    let u = c as u32;
    ||| 0x09 <= u <= 0x0d
    ||| u == 0x20
    ||| u == 0x85
    ||| u == 0xa0
    ||| u == 0x1680
    ||| 0x2000 <= u <= 0x200a
    ||| u == 0x2028
    ||| u == 0x2029
    ||| u == 0x202f
    ||| u == 0x205f
    ||| u == 0x3000
}

/// `char::is_whitespace`: true exactly for the characters that have the
/// Unicode `White_Space` property.
#[verifier::external_body]
fn char_is_whitespace(c: char) -> (res: bool)
    ensures
        res == is_white_space(c),
{
    c.is_whitespace()
}

/// `String::push`: appends one character.
#[verifier::external_body]
pub fn push_char(s: &mut String, c: char)
    ensures
        final(s)@ == old(s)@.push(c),
{
    s.push(c)
}

/// `s` without its leading whitespace.
pub open spec fn trim_start(s: Seq<char>) -> Seq<char>
    decreases s.len(),
{
    if s.len() > 0 && is_white_space(s[0]) {
        trim_start(s.drop_first())
    } else {
        s
    }
}

/// `s` without its trailing whitespace.
pub open spec fn trim_end(s: Seq<char>) -> Seq<char>
    decreases s.len(),
{
    if s.len() > 0 && is_white_space(s.last()) {
        trim_end(s.drop_last())
    } else {
        s
    }
}

/// `s` without leading and trailing whitespace (what `str::trim` gives).
pub open spec fn trimmed(s: Seq<char>) -> Seq<char> {
    trim_end(trim_start(s))
}

/// The characters of a string slice, in order.
pub fn chars_of(s: &str) -> (v: Vec<char>)
    ensures
        v@ == s@,
{
    let mut v: Vec<char> = Vec::new();
    for c in it: s.chars()
        invariant
            v@ == it.seq().take(it.index() as int),
            it.seq() == s@,
    {
        v.push(c);
    }
    v
}

/// A new string holding `v[lo..hi]`.
pub fn string_of(v: &Vec<char>, lo: usize, hi: usize) -> (s: String)
    requires
        lo <= hi <= v.len(),
    ensures
        s@ == v@.subrange(lo as int, hi as int),
{
    let mut s = String::new();
    let mut i = lo;
    while i < hi
        invariant
            lo <= i <= hi <= v.len(),
            s@ == v@.subrange(lo as int, i as int),
        decreases hi - i,
    {
        push_char(&mut s, v[i]);
        i = i + 1;
        assert(s@ =~= v@.subrange(lo as int, i as int));
    }
    s
}

/// The bounds of `v[lo..hi]` with surrounding whitespace removed.
pub fn trim_bounds(v: &Vec<char>, lo: usize, hi: usize) -> (r: (usize, usize))
    requires
        lo <= hi <= v.len(),
    ensures
        lo <= r.0 <= r.1 <= hi,
        v@.subrange(r.0 as int, r.1 as int) == trimmed(v@.subrange(lo as int, hi as int)),
{
    let mut a = lo;
    while a < hi && char_is_whitespace(v[a])
        invariant
            lo <= a <= hi <= v.len(),
            trim_start(v@.subrange(lo as int, hi as int)) == trim_start(
                v@.subrange(a as int, hi as int),
            ),
        decreases hi - a,
    {
        assert(v@.subrange(a as int, hi as int).drop_first() =~= v@.subrange(
            a + 1,
            hi as int,
        ));
        a = a + 1;
    }
    let mut b = hi;
    while b > a && char_is_whitespace(v[b - 1])
        invariant
            lo <= a <= b <= hi <= v.len(),
            trim_start(v@.subrange(lo as int, hi as int)) == v@.subrange(a as int, hi as int),
            trim_end(v@.subrange(a as int, hi as int)) == trim_end(v@.subrange(a as int, b as int)),
        decreases b - a,
    {
        assert(v@.subrange(a as int, b as int).drop_last() =~= v@.subrange(
            a as int,
            b - 1,
        ));
        b = b - 1;
    }
    (a, b)
}

/// Position of the first `c` in `v[lo..hi]`.
pub fn find_first(v: &Vec<char>, lo: usize, hi: usize, c: char) -> (r: Option<usize>)
    requires
        lo <= hi <= v.len(),
    ensures
        match r {
            Some(i) => lo <= i < hi && v@.subrange(lo as int, hi as int).index_of_first(c) == Some(
                i - lo,
            ),
            None => v@.subrange(lo as int, hi as int).index_of_first(c) is None,
        },
{
    let ghost s = v@.subrange(lo as int, hi as int);
    proof {
        s.index_of_first_ensures(c);
    }
    let mut i = lo;
    while i < hi
        invariant
            lo <= i <= hi <= v.len(),
            s == v@.subrange(lo as int, hi as int),
            forall|j: int| 0 <= j < i - lo ==> s[j] != c,
            match s.index_of_first(c) {
                Some(index) => {
                    &&& s.contains(c)
                    &&& 0 <= index < s.len()
                    &&& s[index] == c
                    &&& forall|j: int| 0 <= j < index < s.len() ==> s[j] != c
                },
                None => !s.contains(c),
            },
        decreases hi - i,
    {
        if v[i] == c {
            assert(s[i - lo] == c);
            return Some(i);
        }
        i = i + 1;
    }
    None
}

/// Position of the last `c` in `v[lo..hi]`.
pub fn find_last(v: &Vec<char>, lo: usize, hi: usize, c: char) -> (r: Option<usize>)
    requires
        lo <= hi <= v.len(),
    ensures
        match r {
            Some(i) => lo <= i < hi && v@.subrange(lo as int, hi as int).index_of_last(c) == Some(
                i - lo,
            ),
            None => v@.subrange(lo as int, hi as int).index_of_last(c) is None,
        },
{
    let ghost s = v@.subrange(lo as int, hi as int);
    proof {
        s.index_of_last_ensures(c);
    }
    let mut i = hi;
    while i > lo
        invariant
            lo <= i <= hi <= v.len(),
            s == v@.subrange(lo as int, hi as int),
            forall|j: int| i - lo <= j < s.len() ==> s[j] != c,
            match s.index_of_last(c) {
                Some(index) => {
                    &&& s.contains(c)
                    &&& 0 <= index < s.len()
                    &&& s[index] == c
                    &&& forall|j: int| 0 <= index < j < s.len() ==> s[j] != c
                },
                None => !s.contains(c),
            },
        decreases i - lo,
    {
        if v[i - 1] == c {
            assert(s[i - 1 - lo] == c);
            return Some(i - 1);
        }
        i = i - 1;
    }
    None
}

/// The pieces of `s` between `d` separators, empty ones included (what
/// `str::split(d)` yields).
pub open spec fn split_on(s: Seq<char>, d: char) -> Seq<Seq<char>>
    decreases s.len(),
{
    if s.len() == 0 {
        seq![Seq::<char>::empty()]
    } else if s.last() == d {
        split_on(s.drop_last(), d).push(Seq::<char>::empty())
    } else {
        let segs = split_on(s.drop_last(), d);
        segs.update(segs.len() - 1, segs.last().push(s.last()))
    }
}

/// The trimmed pieces that are not empty, in order.
pub open spec fn nonempty_trimmed(segs: Seq<Seq<char>>) -> Seq<Seq<char>>
    decreases segs.len(),
{
    if segs.len() == 0 {
        seq![]
    } else {
        nonempty_trimmed(segs.drop_last()) + if trimmed(segs.last()).len() > 0 {
            seq![trimmed(segs.last())]
        } else {
            seq![]
        }
    }
}

/// The text of each string.
pub open spec fn texts_of(v: Seq<String>) -> Seq<Seq<char>> {
    v.map_values(|s: String| s@)
}

/// Whether `s` holds exactly the text `lit`.
pub fn text_is(s: &String, lit: &str) -> (b: bool)
    ensures
        b == (s@ == lit@),
{
    *s == lit.to_string()
}

/// The pieces of `v[lo..hi]` between `d` separators, each trimmed, the
/// empty ones left out.
pub fn split_trimmed(v: &Vec<char>, lo: usize, hi: usize, d: char) -> (r: Vec<String>)
    requires
        lo <= hi <= v.len(),
    ensures
        texts_of(r@) == nonempty_trimmed(split_on(v@.subrange(lo as int, hi as int), d)),
{
    let ghost s = v@.subrange(lo as int, hi as int);
    let mut out: Vec<String> = Vec::new();
    let mut seg_start = lo;
    let mut i = lo;
    assert(s.take(0) =~= Seq::<char>::empty());
    assert(v@.subrange(lo as int, lo as int) =~= Seq::<char>::empty());
    assert(texts_of(out@) =~= nonempty_trimmed(split_on(s.take(0), d).drop_last()));
    while i < hi
        invariant
            lo <= seg_start <= i <= hi <= v.len(),
            s == v@.subrange(lo as int, hi as int),
            split_on(s.take(i - lo), d).len() >= 1,
            split_on(s.take(i - lo), d).last() == v@.subrange(seg_start as int, i as int),
            texts_of(out@) == nonempty_trimmed(split_on(s.take(i - lo), d).drop_last()),
        decreases hi - i,
    {
        let ghost segs = split_on(s.take(i - lo), d);
        assert(s.take(i - lo + 1).drop_last() =~= s.take(i - lo));
        assert(s.take(i - lo + 1).last() == v[i as int]);
        if v[i] == d {
            push_trimmed(v, seg_start, i, &mut out);
            let ghost nsegs = split_on(s.take(i - lo + 1), d);
            assert(nsegs.drop_last() =~= segs);
            assert(segs =~= segs.drop_last().push(segs.last()));
            seg_start = i + 1;
            i = i + 1;
            assert(v@.subrange(seg_start as int, i as int) =~= Seq::<char>::empty());
        } else {
            let ghost nsegs = split_on(s.take(i - lo + 1), d);
            assert(nsegs.drop_last() =~= segs.drop_last());
            assert(nsegs.last() =~= v@.subrange(seg_start as int, i + 1));
            i = i + 1;
        }
    }
    let ghost segs = split_on(s.take(i - lo), d);
    assert(s.take(i - lo) =~= s);
    push_trimmed(v, seg_start, hi, &mut out);
    assert(segs =~= segs.drop_last().push(segs.last()));
    out
}

/// Appends `v[lo..hi]` trimmed, unless that is empty.
fn push_trimmed(v: &Vec<char>, lo: usize, hi: usize, out: &mut Vec<String>)
    requires
        lo <= hi <= v.len(),
    ensures
        texts_of(final(out)@) == texts_of(old(out)@) + if trimmed(
            v@.subrange(lo as int, hi as int),
        ).len() > 0 {
            seq![trimmed(v@.subrange(lo as int, hi as int))]
        } else {
            seq![]
        },
{
    let (a, b) = trim_bounds(v, lo, hi);
    let ghost before = out@;
    if a < b {
        out.push(string_of(v, a, b));
        assert(texts_of(out@) =~= texts_of(before) + seq![trimmed(
            v@.subrange(lo as int, hi as int),
        )]);
    } else {
        assert(texts_of(out@) =~= texts_of(before) + Seq::<Seq<char>>::empty());
    }
}

/// The decimal digit `d` (0 to 9).
pub open spec fn digit_char(d: nat) -> char {
    (0x30 + d) as char
}

/// The decimal numeral of `n`, without leading zeros.
pub open spec fn decimal_text(n: nat) -> Seq<char>
    decreases n,
{
    if n < 10 {
        seq![digit_char(n)]
    } else {
        decimal_text(n / 10).push(digit_char(n % 10))
    }
}

/// The decimal numeral of `i`, with a `-` when it is negative.
pub open spec fn int_text(i: int) -> Seq<char> {
    if i < 0 {
        seq!['-'] + decimal_text((-i) as nat)
    } else {
        decimal_text(i as nat)
    }
}

/// Splitting never yields zero pieces.
pub proof fn lemma_split_nonempty(s: Seq<char>, d: char)
    ensures
        split_on(s, d).len() >= 1,
    decreases s.len(),
{
    if s.len() > 0 {
        lemma_split_nonempty(s.drop_last(), d);
    }
}

/// Splitting `a`, a separator, then `b` gives the pieces of `a` followed by
/// the pieces of `b`.
pub proof fn lemma_split_concat(a: Seq<char>, b: Seq<char>, d: char)
    ensures
        split_on(a.push(d) + b, d) == split_on(a, d) + split_on(b, d),
    decreases b.len(),
{
    let whole = a.push(d) + b;
    if b.len() == 0 {
        assert(whole =~= a.push(d));
        assert(whole.drop_last() =~= a);
        assert(split_on(b, d) =~= seq![Seq::<char>::empty()]);
        assert(split_on(a, d).push(Seq::<char>::empty()) =~= split_on(a, d) + seq![
            Seq::<char>::empty(),
        ]);
    } else {
        let b0 = b.drop_last();
        lemma_split_concat(a, b0, d);
        lemma_split_nonempty(b0, d);
        assert(whole.drop_last() =~= a.push(d) + b0);
        assert(whole.last() == b.last());
        let sa = split_on(a, d);
        let sb0 = split_on(b0, d);
        if b.last() == d {
            assert((sa + sb0).push(Seq::<char>::empty()) =~= sa + sb0.push(Seq::<char>::empty()));
        } else {
            let s = sa + sb0;
            assert(s.update(s.len() - 1, s.last().push(b.last())) =~= sa + sb0.update(
                sb0.len() - 1,
                sb0.last().push(b.last()),
            ));
        }
    }
}

/// Keeping the trimmed non-empty pieces of two runs of pieces keeps those of
/// each, in order.
pub proof fn lemma_nonempty_trimmed_concat(a: Seq<Seq<char>>, b: Seq<Seq<char>>)
    ensures
        nonempty_trimmed(a + b) == nonempty_trimmed(a) + nonempty_trimmed(b),
    decreases b.len(),
{
    if b.len() == 0 {
        assert(a + b =~= a);
        assert(nonempty_trimmed(a) + nonempty_trimmed(b) =~= nonempty_trimmed(a));
    } else {
        lemma_nonempty_trimmed_concat(a, b.drop_last());
        assert((a + b).drop_last() =~= a + b.drop_last());
        assert((a + b).last() == b.last());
        let tail = if trimmed(b.last()).len() > 0 {
            seq![trimmed(b.last())]
        } else {
            Seq::<Seq<char>>::empty()
        };
        assert(nonempty_trimmed(a) + nonempty_trimmed(b.drop_last()) + tail =~= nonempty_trimmed(a)
            + (nonempty_trimmed(b.drop_last()) + tail));
    }
}

/// Leading whitespace does not change the trimmed text.
pub proof fn lemma_trim_leading(c: char, s: Seq<char>)
    requires
        is_white_space(c),
    ensures
        trimmed(seq![c] + s) == trimmed(s),
{
    assert((seq![c] + s).drop_first() =~= s);
}

proof fn lemma_trim_start_push(s: Seq<char>, c: char)
    requires
        is_white_space(c),
    ensures
        trim_start(s.push(c)) == if trim_start(s).len() > 0 {
            trim_start(s).push(c)
        } else {
            Seq::<char>::empty()
        },
    decreases s.len(),
{
    if s.len() == 0 {
        assert(s.push(c).drop_first() =~= Seq::<char>::empty());
        assert(trim_start(Seq::<char>::empty()) == Seq::<char>::empty());
        assert(trim_start(s) == Seq::<char>::empty());
    } else if is_white_space(s[0]) {
        assert(s.push(c)[0] == s[0]);
        assert(s.push(c).drop_first() =~= s.drop_first().push(c));
        lemma_trim_start_push(s.drop_first(), c);
    } else {
        assert(s.push(c)[0] == s[0]);
    }
}

/// Trailing whitespace does not change the trimmed text.
pub proof fn lemma_trim_trailing(s: Seq<char>, c: char)
    requires
        is_white_space(c),
    ensures
        trimmed(s.push(c)) == trimmed(s),
{
    lemma_trim_start_push(s, c);
    let t = trim_start(s);
    if t.len() > 0 {
        assert(t.push(c).drop_last() =~= t);
    }
}

} // verus!
