//! Character-level utilities shared by the tokenizer, the account resolver
//! and the renderer: conversions between `str` and `Vec<char>`, lowercasing,
//! substring and prefix search, and whitespace splitting.

use vstd::prelude::*;
use vstd::string::StrSliceExecFns;
use vstd::string::StringExecFns;

verus! {

/// The characters of `s`, in order, as an owned vector.
pub fn str_to_chars(s: &str) -> (r: Vec<char>)
    ensures
        r@ == s@,
{
    let n = s.unicode_len();
    let mut r: Vec<char> = Vec::new();
    let mut i: usize = 0;
    while i < n
        invariant
            n == s@.len(),
            i <= n,
            r@ == s@.subrange(0, i as int),
        decreases n - i,
    {
        r.push(s.get_char(i));
        i = i + 1;
        proof {
            assert(r@ =~= s@.subrange(0, i as int));
        }
    }
    proof {
        assert(r@ =~= s@);
    }
    r
}

/// Relies on `String::from_iter` over `char`: collecting characters into a
/// `String` yields exactly those characters.
#[verifier::external_body]
pub fn string_from_chars(v: &Vec<char>) -> (r: String)
    ensures
        r@ == v@,
{
    v.iter().collect()
}

/// The first index at or after `i` whose character fails `p`; the length of
/// the run of characters satisfying `p` that starts at `i`, added to `i`.
pub open spec fn seq_span(s: Seq<char>, i: int, p: spec_fn(char) -> bool) -> int
    decreases s.len() - i,
{
    if 0 <= i && i < s.len() && p(s[i]) {
        seq_span(s, i + 1, p)
    } else {
        i
    }
}

pub proof fn lemma_seq_span(s: Seq<char>, i: int, p: spec_fn(char) -> bool)
    requires
        0 <= i <= s.len(),
    ensures
        i <= seq_span(s, i, p) <= s.len(),
        forall|k: int| i <= k < seq_span(s, i, p) ==> p(s[k]),
        seq_span(s, i, p) < s.len() ==> !p(s[seq_span(s, i, p)]),
    decreases s.len() - i,
{
    if i < s.len() && p(s[i]) {
        lemma_seq_span(s, i + 1, p);
    }
}

/// The span ends exactly at `j` when everything before `j` satisfies `p`
/// and `j` itself does not (or is the end).
pub proof fn lemma_seq_span_is(s: Seq<char>, i: int, p: spec_fn(char) -> bool, j: int)
    requires
        0 <= i <= j <= s.len(),
        forall|k: int| i <= k < j ==> p(#[trigger] s[k]),
        j < s.len() ==> !p(s[j]),
    ensures
        seq_span(s, i, p) == j,
    decreases j - i,
{
    if i < j {
        lemma_seq_span_is(s, i + 1, p, j);
    }
}

/// The span reaches at least `j` when everything before `j` satisfies `p`.
pub proof fn lemma_seq_span_at_least(s: Seq<char>, i: int, p: spec_fn(char) -> bool, j: int)
    requires
        0 <= i <= j <= s.len(),
        forall|k: int| i <= k < j ==> p(#[trigger] s[k]),
    ensures
        seq_span(s, i, p) >= j,
    decreases j - i,
{
    lemma_seq_span(s, i, p);
    if i < j {
        lemma_seq_span_at_least(s, i + 1, p, j);
    }
}

/// Appends every character of `src` to `dst`.
#[verifier::loop_isolation(false)]
pub fn push_all(dst: &mut Vec<char>, src: &Vec<char>)
    ensures
        final(dst)@ == old(dst)@ + src@,
{
    let n = src.len();
    let mut i: usize = 0;
    while i < n
        invariant
            i <= n,
            dst@ == old(dst)@ + src@.subrange(0, i as int),
        decreases n - i,
    {
        dst.push(src[i]);
        i = i + 1;
        proof {
            assert(old(dst)@ + src@.subrange(0, i - 1) + seq![src@[i - 1]] =~= old(dst)@
                + src@.subrange(0, i as int));
        }
    }
    proof {
        assert(old(dst)@ + src@.subrange(0, n as int) =~= old(dst)@ + src@);
    }
}

/// Whether `needle` occurs in `hay` starting at index `k`.
pub open spec fn is_substring_at(hay: Seq<char>, needle: Seq<char>, k: int) -> bool {
    0 <= k && k + needle.len() <= hay.len() && hay.subrange(k, k + needle.len() as int) == needle
}

/// Whether `needle` occurs anywhere in `hay`.
pub open spec fn has_substring(hay: Seq<char>, needle: Seq<char>) -> bool {
    exists|k: int| is_substring_at(hay, needle, k)
}

/// Substring search.
#[verifier::loop_isolation(false)]
pub fn contains_sub(hay: &Vec<char>, needle: &Vec<char>) -> (r: bool)
    ensures
        r == has_substring(hay@, needle@),
{
    let n = hay.len();
    let m = needle.len();
    if m > n {
        proof {
            assert(forall|k: int| !is_substring_at(hay@, needle@, k));
        }
        return false;
    }
    let mut k: usize = 0;
    while k <= n - m
        invariant
            0 <= k <= n - m + 1,
            m <= n,
            forall|k2: int| 0 <= k2 < k ==> !is_substring_at(hay@, needle@, k2),
        decreases n - k,
    {
        let mut j: usize = 0;
        let mut ok = true;
        while j < m
            invariant
                0 <= j <= m,
                k + m <= n,
                ok <==> (forall|j2: int| 0 <= j2 < j ==> hay@[k + j2] == needle@[j2]),
            decreases m - j,
        {
            if hay[k + j] != needle[j] {
                ok = false;
                j = m;
            } else {
                j = j + 1;
            }
        }
        if ok {
            proof {
                assert(hay@.subrange(k as int, k + m) =~= needle@);
                assert(is_substring_at(hay@, needle@, k as int));
            }
            return true;
        }
        proof {
            assert(!is_substring_at(hay@, needle@, k as int)) by {
                if is_substring_at(hay@, needle@, k as int) {
                    let j2 = choose|j2: int|
                        0 <= j2 < m && hay@[k + j2] != needle@[j2];
                    assert(hay@.subrange(k as int, k + m)[j2] == hay@[k + j2]);
                }
            }
        }
        k = k + 1;
    }
    proof {
        assert(forall|k2: int| k <= k2 ==> !is_substring_at(hay@, needle@, k2));
    }
    false
}

/// An ASCII whitespace character, as `char::is_ascii_whitespace` counts
/// them: space, tab, newline, form feed, carriage return.
pub open spec fn is_ascii_ws(c: char) -> bool {
    c == ' ' || c == '\t' || c == '\n' || c == '\u{0c}' || c == '\r'
}

/// The maximal ASCII-whitespace-free chunks of `s` from index `i` on, in
/// order: what `str::split_ascii_whitespace` yields.
pub open spec fn spec_split_ws_from(s: Seq<char>, i: int) -> Seq<Seq<char>>
    decreases s.len() - i,
    via spec_split_ws_from_decreases
{
    if i < 0 {
        Seq::empty()
    } else {
        let j = seq_span(s, i, |c: char| is_ascii_ws(c));
        if j >= s.len() {
            Seq::empty()
        } else {
            let k = seq_span(s, j, |c: char| !is_ascii_ws(c));
            seq![s.subrange(j, k)] + spec_split_ws_from(s, k)
        }
    }
}

#[via_fn]
proof fn spec_split_ws_from_decreases(s: Seq<char>, i: int) {
    if 0 <= i <= s.len() {
        let j = seq_span(s, i, |c: char| is_ascii_ws(c));
        lemma_seq_span(s, i, |c: char| is_ascii_ws(c));
        if j < s.len() {
            lemma_seq_span(s, j, |c: char| !is_ascii_ws(c));
            assert(seq_span(s, j, |c: char| !is_ascii_ws(c)) != j);
        }
    }
}

pub open spec fn spec_split_ws(s: Seq<char>) -> Seq<Seq<char>> {
    spec_split_ws_from(s, 0)
}

/// Splits on runs of ASCII whitespace, dropping empty chunks.
#[verifier::loop_isolation(false)]
pub fn split_ws(s: &Vec<char>) -> (r: Vec<Vec<char>>)
    ensures
        r.deep_view() == spec_split_ws(s@),
{
    let ghost wsp = |c: char| is_ascii_ws(c);
    let ghost nwsp = |c: char| !is_ascii_ws(c);
    let n = s.len();
    let mut out: Vec<Vec<char>> = Vec::new();
    let mut i: usize = 0;
    loop
        invariant
            i <= n,
            out.deep_view() + spec_split_ws_from(s@, i as int) == spec_split_ws(s@),
        decreases n - i,
    {
        let ghost i_head = i as int;
        while i < n && is_ascii_ws_exec(s[i])
            invariant
                i_head <= i <= n,
                seq_span(s@, i_head, wsp) == seq_span(s@, i as int, wsp),
            decreases n - i,
        {
            i = i + 1;
        }
        proof {
            assert(seq_span(s@, i as int, wsp) == i as int);
        }
        if i >= n {
            proof {
                assert(spec_split_ws_from(s@, i_head) =~= Seq::<Seq<char>>::empty());
                assert(out.deep_view() + Seq::<Seq<char>>::empty() =~= out.deep_view());
            }
            return out;
        }
        let ghost j = i as int;
        let mut chunk: Vec<char> = Vec::new();
        while i < n && !is_ascii_ws_exec(s[i])
            invariant
                j <= i <= n,
                chunk@ == s@.subrange(j, i as int),
                seq_span(s@, j, nwsp) == seq_span(s@, i as int, nwsp),
            decreases n - i,
        {
            chunk.push(s[i]);
            proof {
                assert(chunk@ =~= s@.subrange(j, i + 1));
            }
            i = i + 1;
        }
        proof {
            assert(seq_span(s@, j, nwsp) == i as int);
        }
        let ghost old_out = out.deep_view();
        let ghost cv = chunk@;
        out.push(chunk);
        proof {
            assert(out.deep_view() =~~= old_out.push(cv));
            let rest = spec_split_ws_from(s@, i as int);
            assert(spec_split_ws_from(s@, i_head) == seq![cv] + rest);
            assert(old_out.push(cv) + rest =~~= old_out + (seq![cv] + rest));
        }
    }
}

/// Whether `c` is ASCII whitespace.
pub fn is_ascii_ws_exec(c: char) -> (r: bool)
    ensures
        r == is_ascii_ws(c),
{
    c == ' ' || c == '\t' || c == '\n' || c == '\u{0c}' || c == '\r'
}

/// The result of Unicode-lowercasing a character sequence, as produced by
/// `str::to_lowercase`. The mapping depends on the characters alone.
pub uninterp spec fn lower_of(s: Seq<char>) -> Seq<char>;

/// Relies on `str::to_lowercase`: the result is a function of the input
/// characters alone.
#[verifier::external_body]
pub fn lowercase(s: &str) -> (r: String)
    ensures
        r@ == lower_of(s@),
{
    s.to_lowercase()
}

/// Whether two strings hold the same characters.
#[verifier::loop_isolation(false)]
pub fn str_eq(a: &str, b: &str) -> (r: bool)
    ensures
        r == (a@ == b@),
{
    let na = a.unicode_len();
    let nb = b.unicode_len();
    if na != nb {
        proof {
            assert(a@ != b@);
        }
        return false;
    }
    let mut i: usize = 0;
    while i < na
        invariant
            i <= na,
            na == a@.len() && na == b@.len(),
            forall|k: int| 0 <= k < i ==> a@[k] == b@[k],
        decreases na - i,
    {
        if a.get_char(i) != b.get_char(i) {
            proof {
                assert(a@ != b@);
            }
            return false;
        }
        i = i + 1;
    }
    proof {
        assert(a@ =~= b@);
    }
    true
}

} // verus!
