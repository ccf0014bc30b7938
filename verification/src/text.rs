use vstd::prelude::*;
use vstd::utf8::{valid_utf8, decode_utf8};

verus! {

broadcast use vstd::string::group_string_axioms;

/// The characters of `s`, in order.
pub fn chars_of(s: &str) -> (v: Vec<char>)
    ensures
        v@ == s@,
{
    let mut v: Vec<char> = Vec::new();
    let chars = s.chars();
    let ghost all = s@;
    for c in it: chars
        invariant
            it.seq() == all,
            v@ == it.seq().take(it.index() as int),
    {
        v.push(c);
    }
    assert(v@ =~= all);
    v
}

/// Unicode `White_Space`, the property that `char::is_whitespace` tests.
pub open spec fn is_ws(c: char) -> bool {
    ||| ('\u{9}' <= c && c <= '\u{d}')
    ||| c == ' '
    ||| c == '\u{85}'
    ||| c == '\u{a0}'
    ||| c == '\u{1680}'
    ||| ('\u{2000}' <= c && c <= '\u{200a}')
    ||| c == '\u{2028}'
    ||| c == '\u{2029}'
    ||| c == '\u{202f}'
    ||| c == '\u{205f}'
    ||| c == '\u{3000}'
}

pub fn is_whitespace(c: char) -> (b: bool)
    ensures
        b == is_ws(c),
{
    ('\u{9}' <= c && c <= '\u{d}') || c == ' ' || c == '\u{85}' || c == '\u{a0}' || c == '\u{1680}'
        || ('\u{2000}' <= c && c <= '\u{200a}') || c == '\u{2028}' || c == '\u{2029}'
        || c == '\u{202f}' || c == '\u{205f}' || c == '\u{3000}'
}

/// `s` without its leading whitespace.
pub open spec fn trim_start(s: Seq<char>) -> Seq<char>
    decreases s.len(),
{
    if s.len() > 0 && is_ws(s[0]) {
        trim_start(s.drop_first())
    } else {
        s
    }
}

/// `s` without its trailing whitespace.
pub open spec fn trim_end(s: Seq<char>) -> Seq<char>
    decreases s.len(),
{
    if s.len() > 0 && is_ws(s.last()) {
        trim_end(s.drop_last())
    } else {
        s
    }
}

/// `s` without leading and trailing whitespace, as `str::trim` gives it.
pub open spec fn trim(s: Seq<char>) -> Seq<char> {
    trim_end(trim_start(s))
}

proof fn lemma_trim_start_skip(s: Seq<char>, i: int)
    requires
        0 <= i <= s.len(),
        forall|j: int| 0 <= j < i ==> is_ws(#[trigger] s[j]),
    ensures
        trim_start(s) == trim_start(s.skip(i)),
    decreases i,
{
    if i > 0 {
        assert(s.skip(1) =~= s.drop_first());
        lemma_trim_start_skip(s.drop_first(), i - 1);
        assert(s.drop_first().skip(i - 1) =~= s.skip(i));
    } else {
        assert(s.skip(0) =~= s);
    }
}

proof fn lemma_trim_end_take(s: Seq<char>, i: int)
    requires
        0 <= i <= s.len(),
        forall|j: int| i <= j < s.len() ==> is_ws(#[trigger] s[j]),
    ensures
        trim_end(s) == trim_end(s.take(i)),
    decreases s.len() - i,
{
    if i < s.len() {
        assert(s.take(s.len() - 1) =~= s.drop_last());
        lemma_trim_end_take(s.drop_last(), i);
        assert(s.drop_last().take(i) =~= s.take(i));
    } else {
        assert(s.take(s.len() as int) =~= s);
    }
}

/// The bounds `(a, b)` of the trimmed part of `s[from..to]`.
pub fn trim_bounds(s: &Vec<char>, from: usize, to: usize) -> (r: (usize, usize))
    requires
        from <= to <= s@.len(),
    ensures
        from <= r.0 <= r.1 <= to,
        s@.subrange(r.0 as int, r.1 as int) == trim(s@.subrange(from as int, to as int)),
{
    let ghost t = s@.subrange(from as int, to as int);
    let mut a = from;
    while a < to && is_whitespace(s[a])
        invariant
            from <= a <= to <= s@.len(),
            t == s@.subrange(from as int, to as int),
            forall|j: int| from <= j < a ==> is_ws(#[trigger] s@[j]),
        decreases to - a,
    {
        a = a + 1;
    }
    proof {
        assert forall|j: int| 0 <= j < a - from implies is_ws(#[trigger] t[j]) by {
            assert(t[j] == s@[from + j]);
        }
        lemma_trim_start_skip(t, a - from);
        assert(t.skip(a - from) =~= s@.subrange(a as int, to as int));
        if a < to {
            assert(!is_ws(s@.subrange(a as int, to as int)[0]));
        }
        assert(trim_start(t) == s@.subrange(a as int, to as int));
    }
    let mut b = to;
    while b > a && is_whitespace(s[b - 1])
        invariant
            from <= a <= b <= to <= s@.len(),
            forall|j: int| b <= j < to ==> is_ws(#[trigger] s@[j]),
        decreases b - a,
    {
        b = b - 1;
    }
    proof {
        let u = s@.subrange(a as int, to as int);
        assert forall|j: int| b - a <= j < u.len() implies is_ws(#[trigger] u[j]) by {
            assert(u[j] == s@[a + j]);
        }
        lemma_trim_end_take(u, b - a);
        assert(u.take(b - a) =~= s@.subrange(a as int, b as int));
        if b > a {
            assert(s@.subrange(a as int, b as int).last() == s@[b - 1]);
        }
    }
    (a, b)
}

/// `s[from..]` starts with `p`.
pub fn has_prefix_at(s: &Vec<char>, from: usize, to: usize, p: &Vec<char>) -> (b: bool)
    requires
        from <= to <= s@.len(),
    ensures
        b == (p@.len() <= to - from && s@.subrange(from as int, from + p@.len()) == p@),
{
    if p.len() > to - from {
        return false;
    }
    let mut i: usize = 0;
    while i < p.len()
        invariant
            p@.len() <= to - from,
            from <= to <= s@.len(),
            i <= p@.len(),
            forall|j: int| 0 <= j < i ==> s@[from + j] == p@[j],
        decreases p@.len() - i,
    {
        if s[from + i] != p[i] {
            assert(s@.subrange(from as int, from + p@.len())[i as int] != p@[i as int]);
            return false;
        }
        i = i + 1;
    }
    assert(s@.subrange(from as int, from + p@.len()) =~= p@);
    true
}


/// `String::from_utf8`: claimed to succeed exactly on valid UTF-8, giving
/// its decoding.
#[verifier::external_body]
pub(crate) fn strict_text(bytes: Vec<u8>) -> (r: Option<String>)
    ensures
        r is Some <==> valid_utf8(bytes@),
        r matches Some(s) ==> s@ == decode_utf8(bytes@),
{
    String::from_utf8(bytes).ok()
}

/// Length of the run of non-whitespace characters that `s` starts with.
pub open spec fn run_len(s: Seq<char>) -> nat
    decreases s.len(),
{
    if s.len() == 0 || is_ws(s[0]) {
        0
    } else {
        1 + run_len(s.drop_first())
    }
}

pub proof fn lemma_run_len_bounds(s: Seq<char>)
    ensures
        run_len(s) <= s.len(),
        s.len() > 0 && !is_ws(s[0]) ==> run_len(s) > 0,
    decreases s.len(),
{
    if s.len() > 0 && !is_ws(s[0]) {
        lemma_run_len_bounds(s.drop_first());
    }
}

/// The whitespace-separated words of `s`, in order, as
/// `str::split_whitespace` yields them.
pub open spec fn words(s: Seq<char>) -> Seq<Seq<char>>
    decreases s.len(),
{
    if s.len() == 0 {
        Seq::empty()
    } else if is_ws(s[0]) {
        words(s.drop_first())
    } else {
        proof {
            lemma_run_len_bounds(s);
        }
        seq![s.take(run_len(s) as int)] + words(s.skip(run_len(s) as int))
    }
}

proof fn lemma_run_len_exact(t: Seq<char>, k: int)
    requires
        0 <= k <= t.len(),
        forall|q: int| 0 <= q < k ==> !is_ws(#[trigger] t[q]),
        k == t.len() || is_ws(t[k]),
    ensures
        run_len(t) == k,
    decreases k,
{
    if k > 0 {
        let d = t.drop_first();
        assert forall|q: int| 0 <= q < k - 1 implies !is_ws(#[trigger] d[q]) by {
            assert(d[q] == t[q + 1]);
        }
        if k < t.len() {
            assert(d[k - 1] == t[k]);
        }
        lemma_run_len_exact(d, k - 1);
    }
}

pub open spec fn span_text(s: Seq<char>, sp: (usize, usize)) -> Seq<char> {
    s.subrange(sp.0 as int, sp.1 as int)
}

/// Where the words of `s` lie, as start and end positions.
pub fn word_spans(s: &Vec<char>) -> (v: Vec<(usize, usize)>)
    ensures
        forall|k: int| 0 <= k < v@.len() ==> (#[trigger] v@[k]).0 < v@[k].1 <= s@.len(),
        v@.map_values(|sp: (usize, usize)| span_text(s@, sp)) == words(s@),
{
    let mut v: Vec<(usize, usize)> = Vec::new();
    let mut i: usize = 0;
    assert(s@.skip(0) =~= s@);
    assert(v@.map_values(|sp: (usize, usize)| span_text(s@, sp)) + words(s@) =~= words(s@));
    while i < s.len()
        invariant
            i <= s@.len(),
            forall|k: int| 0 <= k < v@.len() ==> (#[trigger] v@[k]).0 < v@[k].1 <= s@.len(),
            v@.map_values(|sp: (usize, usize)| span_text(s@, sp)) + words(s@.skip(i as int)) == words(s@),
        decreases s@.len() - i,
    {
        let ghost t = s@.skip(i as int);
        let ghost before = v@.map_values(|sp: (usize, usize)| span_text(s@, sp));
        if is_whitespace(s[i]) {
            assert(t[0] == s@[i as int]);
            assert(t.drop_first() =~= s@.skip(i + 1));
            i = i + 1;
        } else {
            let mut j = i + 1;
            while j < s.len() && !is_whitespace(s[j])
                invariant
                    i < j <= s@.len(),
                    forall|q: int| i <= q < j ==> !is_ws(#[trigger] s@[q]),
                decreases s@.len() - j,
            {
                j = j + 1;
            }
            proof {
                assert forall|q: int| 0 <= q < j - i implies !is_ws(#[trigger] t[q]) by {
                    assert(t[q] == s@[i + q]);
                }
                if j < s@.len() {
                    assert(t[j - i] == s@[j as int]);
                }
                lemma_run_len_exact(t, j - i);
                assert(t[0] == s@[i as int]);
                assert(t.take(j - i) =~= s@.subrange(i as int, j as int));
                assert(t.skip(j - i) =~= s@.skip(j as int));
            }
            v.push((i, j));
            assert(v@.map_values(|sp: (usize, usize)| span_text(s@, sp)) =~= before.push(s@.subrange(i as int, j as int)));
            assert(before.push(s@.subrange(i as int, j as int)) + words(s@.skip(j as int))
                =~= before + (seq![s@.subrange(i as int, j as int)] + words(s@.skip(j as int))));
            i = j;
        }
    }
    assert(v@.map_values(|sp: (usize, usize)| span_text(s@, sp)) + Seq::<Seq<char>>::empty()
        =~= v@.map_values(|sp: (usize, usize)| span_text(s@, sp)));
    v
}

/// Text with no whitespace at either end is left as it is by trimming,
/// whatever it holds inside.
pub proof fn lemma_trim_unpadded(s: Seq<char>)
    requires
        s.len() > 0 ==> !is_ws(s[0]) && !is_ws(s.last()),
    ensures
        trim(s) == s,
{
    assert(trim_start(s) == s);
}

/// Text without whitespace is one word.
pub proof fn lemma_words_of_unbroken(s: Seq<char>)
    requires
        s.len() > 0,
        forall|i: int| 0 <= i < s.len() ==> !is_ws(#[trigger] s[i]),
    ensures
        words(s) == seq![s],
{
    lemma_run_len_exact(s, s.len() as int);
    assert(s.take(s.len() as int) =~= s);
    assert(words(s.skip(s.len() as int)) =~= Seq::<Seq<char>>::empty());
    assert(seq![s] + Seq::<Seq<char>>::empty() =~= seq![s]);
}

/// Text without whitespace is its own trim.
pub proof fn lemma_trim_digits(s: Seq<char>)
    requires
        forall|i: int| 0 <= i < s.len() ==> !is_ws(#[trigger] s[i]),
    ensures
        trim(s) == s,
{
    if s.len() > 0 {
        assert(!is_ws(s[0]));
        assert(!is_ws(s.last()));
    }
}

} // verus!
