//! Character- and string-level helpers shared by the naming, key, and port
//! modules: a lexicographic order on character sequences, joining and
//! splitting around a separator, prefix tests, final path components, and
//! whitespace trimming.

use vstd::prelude::*;
use vstd::relations::{antisymmetric, reflexive, strongly_connected, total_ordering, transitive};
use vstd::string::StrSliceExecFns;
use vstd::string::StringExecFns;

verus! {

/// Relies on `String::push`: appends one character at the end of the string.
#[verifier::external_body]
pub fn push_char(s: &mut String, c: char)
    ensures
        final(s)@ == old(s)@.push(c),
{
    s.push(c);
}

/// Fold an uppercase ASCII letter to its lowercase form; leave every other
/// character unchanged.
pub open spec fn spec_fold_lower(c: char) -> char {
    if 'A' <= c && c <= 'Z' {
        ((c as u8) + 32) as char
    } else {
        c
    }
}

/// Executable counterpart of [`spec_fold_lower`].
pub fn fold_lower(c: char) -> (r: char)
    ensures
        r == spec_fold_lower(c),
{
    match c {
        'A' => 'a',
        'B' => 'b',
        'C' => 'c',
        'D' => 'd',
        'E' => 'e',
        'F' => 'f',
        'G' => 'g',
        'H' => 'h',
        'I' => 'i',
        'J' => 'j',
        'K' => 'k',
        'L' => 'l',
        'M' => 'm',
        'N' => 'n',
        'O' => 'o',
        'P' => 'p',
        'Q' => 'q',
        'R' => 'r',
        'S' => 's',
        'T' => 't',
        'U' => 'u',
        'V' => 'v',
        'W' => 'w',
        'X' => 'x',
        'Y' => 'y',
        'Z' => 'z',
        _ => c,
    }
}

/// ASCII whitespace, as stripped from the stored last-session marker.
pub open spec fn spec_is_space(c: char) -> bool {
    c == ' ' || c == '\t' || c == '\n' || c == '\r'
}

pub fn is_space(c: char) -> (r: bool)
    ensures
        r == spec_is_space(c),
{
    c == ' ' || c == '\t' || c == '\n' || c == '\r'
}

/// Lexicographic "less than or equal" on character sequences, by code point;
/// a proper prefix precedes its extensions.
pub open spec fn lex_leq(a: Seq<char>, b: Seq<char>) -> bool
    decreases a.len(),
{
    if a.len() == 0 {
        true
    } else if b.len() == 0 {
        false
    } else if a[0] != b[0] {
        a[0] < b[0]
    } else {
        lex_leq(a.drop_first(), b.drop_first())
    }
}

pub open spec fn lex_leq_fn() -> spec_fn(Seq<char>, Seq<char>) -> bool {
    |a: Seq<char>, b: Seq<char>| lex_leq(a, b)
}

pub proof fn lemma_lex_leq_reflexive(a: Seq<char>)
    ensures
        lex_leq(a, a),
    decreases a.len(),
{
    if a.len() > 0 {
        lemma_lex_leq_reflexive(a.drop_first());
    }
}

pub proof fn lemma_lex_leq_antisymmetric(a: Seq<char>, b: Seq<char>)
    requires
        lex_leq(a, b),
        lex_leq(b, a),
    ensures
        a == b,
    decreases a.len(),
{
    if a.len() == 0 {
        assert(b.len() == 0);
        assert(a =~= b);
    } else {
        assert(a[0] == b[0]);
        lemma_lex_leq_antisymmetric(a.drop_first(), b.drop_first());
        assert(a.len() == b.len());
        assert forall|i: int| 0 <= i < a.len() implies a[i] == b[i] by {
            if i > 0 {
                assert(a.drop_first()[i - 1] == b.drop_first()[i - 1]);
            }
        }
        assert(a =~= b);
    }
}

pub proof fn lemma_lex_leq_transitive(a: Seq<char>, b: Seq<char>, c: Seq<char>)
    requires
        lex_leq(a, b),
        lex_leq(b, c),
    ensures
        lex_leq(a, c),
    decreases a.len(),
{
    if a.len() > 0 && b.len() > 0 && c.len() > 0 {
        if a[0] == b[0] && b[0] == c[0] {
            lemma_lex_leq_transitive(a.drop_first(), b.drop_first(), c.drop_first());
        }
    }
}

pub proof fn lemma_lex_leq_strongly_connected(a: Seq<char>, b: Seq<char>)
    ensures
        lex_leq(a, b) || lex_leq(b, a),
    decreases a.len(),
{
    if a.len() > 0 && b.len() > 0 && a[0] == b[0] {
        lemma_lex_leq_strongly_connected(a.drop_first(), b.drop_first());
    }
}

/// `lex_leq` is a total order, as the sorting lemmas of `vstd` require.
pub proof fn lemma_lex_leq_total_ordering()
    ensures
        total_ordering(lex_leq_fn()),
{
    let leq = lex_leq_fn();
    assert forall|a: Seq<char>| #[trigger] leq(a, a) by {
        lemma_lex_leq_reflexive(a);
    }
    assert(reflexive(leq));
    assert forall|a: Seq<char>, b: Seq<char>| #[trigger] leq(a, b) && #[trigger] leq(b, a)
        implies a == b by {
        lemma_lex_leq_antisymmetric(a, b);
    }
    assert(antisymmetric(leq));
    assert forall|a: Seq<char>, b: Seq<char>, c: Seq<char>|
        #[trigger] leq(a, b) && #[trigger] leq(b, c) implies leq(a, c) by {
        lemma_lex_leq_transitive(a, b, c);
    }
    assert(transitive(leq));
    assert forall|a: Seq<char>, b: Seq<char>| #[trigger] leq(a, b) || #[trigger] leq(b, a) by {
        lemma_lex_leq_strongly_connected(a, b);
    }
    assert(strongly_connected(leq));
}

/// Executable comparison deciding [`lex_leq`] on two string slices.
pub fn str_le(a: &str, b: &str) -> (r: bool)
    ensures
        r == lex_leq(a@, b@),
{
    let a_len: usize = a.unicode_len();
    let b_len: usize = b.unicode_len();
    let mut i: usize = 0;
    proof {
        assert(a@.skip(0) =~= a@);
        assert(b@.skip(0) =~= b@);
    }
    loop
        invariant
            i <= a_len,
            i <= b_len,
            a_len == a@.len(),
            b_len == b@.len(),
            lex_leq(a@, b@) == lex_leq(a@.skip(i as int), b@.skip(i as int)),
        decreases a_len - i,
    {
        if i == a_len {
            assert(a@.skip(i as int).len() == 0);
            return true;
        }
        if i == b_len {
            assert(b@.skip(i as int).len() == 0);
            assert(a@.skip(i as int).len() > 0);
            return false;
        }
        let ca = a.get_char(i);
        let cb = b.get_char(i);
        assert(a@.skip(i as int)[0] == ca);
        assert(b@.skip(i as int)[0] == cb);
        if ca != cb {
            return ca < cb;
        }
        proof {
            assert(a@.skip(i as int).drop_first() =~= a@.skip(i + 1));
            assert(b@.skip(i as int).drop_first() =~= b@.skip(i + 1));
        }
        i = i + 1;
    }
}

/// The parts joined with a single separator character between them.
pub open spec fn join_with(parts: Seq<Seq<char>>, sep: char) -> Seq<char>
    decreases parts.len(),
{
    if parts.len() == 0 {
        Seq::empty()
    } else if parts.len() == 1 {
        parts[0]
    } else {
        join_with(parts.drop_last(), sep) + seq![sep] + parts.last()
    }
}

/// Join the strings with the separator, in order.
pub fn join_strings(parts: &Vec<String>, sep: char) -> (r: String)
    ensures
        r@ == join_with(parts.deep_view(), sep),
{
    let ghost dv = parts.deep_view();
    let mut out = String::new();
    let mut i: usize = 0;
    proof {
        assert(dv.subrange(0, 0) =~= Seq::<Seq<char>>::empty());
    }
    while i < parts.len()
        invariant
            i <= parts.len(),
            dv == parts.deep_view(),
            dv.len() == parts@.len(),
            out@ == join_with(dv.subrange(0, i as int), sep),
        decreases parts.len() - i,
    {
        if i > 0 {
            push_char(&mut out, sep);
        }
        out.append(parts[i].as_str());
        proof {
            let pre = dv.subrange(0, i as int);
            let post = dv.subrange(0, i + 1);
            assert(post.drop_last() =~= pre);
            assert(post.last() == dv[i as int]);
            if i > 0 {
                assert(out@ =~= join_with(pre, sep) + seq![sep] + dv[i as int]);
            } else {
                assert(out@ =~= dv[0]);
            }
        }
        i = i + 1;
    }
    proof {
        assert(dv.subrange(0, parts@.len() as int) =~= dv);
    }
    out
}

/// The segments of `s` between occurrences of `sep`; always at least one
/// segment, and empty segments are kept, as `str::split` yields them.
pub open spec fn split_on(s: Seq<char>, sep: char) -> Seq<Seq<char>>
    decreases s.len(),
{
    if s.len() == 0 {
        seq![Seq::<char>::empty()]
    } else {
        let rest = split_on(s.drop_last(), sep);
        if s.last() == sep {
            rest.push(Seq::empty())
        } else {
            rest.update(rest.len() - 1, rest.last().push(s.last()))
        }
    }
}

pub proof fn lemma_split_on_len(s: Seq<char>, sep: char)
    ensures
        split_on(s, sep).len() >= 1,
    decreases s.len(),
{
    if s.len() > 0 {
        lemma_split_on_len(s.drop_last(), sep);
    }
}

/// Split the string at every occurrence of the separator.
pub fn split_string(s: &str, sep: char) -> (r: Vec<String>)
    ensures
        r.deep_view() == split_on(s@, sep),
{
    let mut parts: Vec<String> = Vec::new();
    let mut cur = String::new();
    let n: usize = s.unicode_len();
    let mut i: usize = 0;
    proof {
        assert(s@.subrange(0, 0) =~= Seq::<char>::empty());
        assert(parts.deep_view().push(cur@) =~= split_on(s@.subrange(0, 0), sep));
    }
    while i < n
        invariant
            i <= n,
            n == s@.len(),
            parts.deep_view().push(cur@) == split_on(s@.subrange(0, i as int), sep),
        decreases n - i,
    {
        let ghost pre = s@.subrange(0, i as int);
        let ghost post = s@.subrange(0, i + 1);
        let ghost old_parts = parts.deep_view();
        let ghost old_cur = cur@;
        let c = s.get_char(i);
        proof {
            assert(post.drop_last() =~= pre);
            assert(post.last() == c);
            lemma_split_on_len(pre, sep);
        }
        if c == sep {
            parts.push(cur);
            cur = String::new();
            proof {
                assert(parts.deep_view() =~= old_parts.push(old_cur));
                assert(parts.deep_view().push(cur@) =~= split_on(pre, sep).push(
                    Seq::<char>::empty()));
            }
        } else {
            push_char(&mut cur, c);
            proof {
                let sp = split_on(pre, sep);
                assert(sp.last() == old_cur);
                assert(parts.deep_view().push(cur@) =~= sp.update(
                    sp.len() - 1,
                    sp.last().push(c),
                ));
            }
        }
        i = i + 1;
    }
    proof {
        assert(s@.subrange(0, n as int) =~= s@);
    }
    let ghost old_parts = parts.deep_view();
    let ghost old_cur = cur@;
    parts.push(cur);
    proof {
        assert(parts.deep_view() =~= old_parts.push(old_cur));
    }
    parts
}

/// `p` is a prefix of `s`.
pub open spec fn is_prefix(p: Seq<char>, s: Seq<char>) -> bool {
    p.len() <= s.len() && p == s.subrange(0, p.len() as int)
}

/// Decide whether `s` starts with `p`.
pub fn str_starts_with(s: &str, p: &str) -> (r: bool)
    ensures
        r == is_prefix(p@, s@),
{
    let p_len: usize = p.unicode_len();
    let s_len: usize = s.unicode_len();
    if p_len > s_len {
        return false;
    }
    let mut i: usize = 0;
    while i < p_len
        invariant
            i <= p_len <= s_len,
            p_len == p@.len(),
            s_len == s@.len(),
            forall|j: int| 0 <= j < i ==> p@[j] == s@[j],
        decreases p_len - i,
    {
        if p.get_char(i) != s.get_char(i) {
            assert(p@[i as int] != s@.subrange(0, p@.len() as int)[i as int]);
            return false;
        }
        i = i + 1;
    }
    proof {
        assert(p@ =~= s@.subrange(0, p@.len() as int));
    }
    true
}

/// The final path component: everything after the last `/`, or the whole
/// string when it holds no `/`.
pub open spec fn last_component(s: Seq<char>) -> Seq<char>
    decreases s.len(),
{
    if s.len() == 0 {
        s
    } else if s.last() == '/' {
        Seq::empty()
    } else {
        last_component(s.drop_last()).push(s.last())
    }
}

proof fn lemma_last_component_subrange(s: Seq<char>, k: int)
    requires
        0 <= k <= s.len(),
        forall|j: int| k <= j < s.len() ==> s[j] != '/',
        k == 0 || s[k - 1] == '/',
    ensures
        last_component(s) == s.subrange(k, s.len() as int),
    decreases s.len(),
{
    if s.len() == k {
        if k == 0 {
            assert(s.subrange(0, 0) =~= s);
        } else {
            assert(s.last() == '/');
            assert(s.subrange(k, s.len() as int) =~= Seq::<char>::empty());
        }
    } else {
        assert(s.last() != '/');
        lemma_last_component_subrange(s.drop_last(), k);
        assert(s.drop_last().subrange(k, s.drop_last().len() as int) =~= s.subrange(
            k,
            s.len() - 1,
        ));
        assert(s.subrange(k, s.len() as int) =~= s.subrange(k, s.len() - 1).push(s.last()));
    }
}

/// Extract the final path component of `s`.
pub fn final_path_component(s: &str) -> (r: String)
    ensures
        r@ == last_component(s@),
{
    let n: usize = s.unicode_len();
    let mut k: usize = n;
    while k > 0
        invariant
            0 <= k <= n,
            n == s@.len(),
            forall|j: int| k <= j < n ==> s@[j] != '/',
        ensures
            0 <= k <= n,
            forall|j: int| k <= j < n ==> s@[j] != '/',
            k == 0 || s@[k - 1] == '/',
        decreases k,
    {
        if s.get_char(k - 1) == '/' {
            break;
        }
        k = k - 1;
    }
    proof {
        lemma_last_component_subrange(s@, k as int);
    }
    let tail: &str = s.substring_char(k, n);
    String::from_str(tail)
}

/// `s` with ASCII whitespace removed from both ends.
pub open spec fn trim_end_spaces(s: Seq<char>) -> Seq<char>
    decreases s.len(),
{
    if s.len() > 0 && spec_is_space(s.last()) {
        trim_end_spaces(s.drop_last())
    } else {
        s
    }
}

pub open spec fn trim_start_spaces(s: Seq<char>) -> Seq<char>
    decreases s.len(),
{
    if s.len() > 0 && spec_is_space(s.first()) {
        trim_start_spaces(s.drop_first())
    } else {
        s
    }
}

pub open spec fn trimmed(s: Seq<char>) -> Seq<char> {
    trim_start_spaces(trim_end_spaces(s))
}

proof fn lemma_trim_end_subrange(s: Seq<char>, hi: int)
    requires
        0 <= hi <= s.len(),
        forall|j: int| hi <= j < s.len() ==> spec_is_space(s[j]),
        hi == 0 || !spec_is_space(s[hi - 1]),
    ensures
        trim_end_spaces(s) == s.subrange(0, hi),
    decreases s.len(),
{
    if s.len() == hi {
        assert(s.subrange(0, hi) =~= s);
    } else {
        assert(spec_is_space(s.last()));
        lemma_trim_end_subrange(s.drop_last(), hi);
        assert(s.drop_last().subrange(0, hi) =~= s.subrange(0, hi));
    }
}

proof fn lemma_trim_start_subrange(s: Seq<char>, lo: int)
    requires
        0 <= lo <= s.len(),
        forall|j: int| 0 <= j < lo ==> spec_is_space(s[j]),
        lo == s.len() || !spec_is_space(s[lo]),
    ensures
        trim_start_spaces(s) == s.subrange(lo, s.len() as int),
    decreases lo,
{
    if lo == 0 {
        assert(s.subrange(0, s.len() as int) =~= s);
    } else {
        assert(spec_is_space(s.first()));
        lemma_trim_start_subrange(s.drop_first(), lo - 1);
        assert(s.drop_first().subrange(lo - 1, s.drop_first().len() as int) =~= s.subrange(
            lo,
            s.len() as int,
        ));
    }
}

/// Strip ASCII whitespace from both ends of the string.
pub fn trim_spaces(s: &str) -> (r: String)
    ensures
        r@ == trimmed(s@),
{
    let n: usize = s.unicode_len();
    let mut hi: usize = n;
    while hi > 0
        invariant
            0 <= hi <= n,
            n == s@.len(),
            forall|j: int| hi <= j < n ==> spec_is_space(s@[j]),
        ensures
            0 <= hi <= n,
            forall|j: int| hi <= j < n ==> spec_is_space(s@[j]),
            hi == 0 || !spec_is_space(s@[hi - 1]),
        decreases hi,
    {
        if !is_space(s.get_char(hi - 1)) {
            break;
        }
        hi = hi - 1;
    }
    let mut lo: usize = 0;
    while lo < hi
        invariant
            0 <= lo <= hi <= n,
            n == s@.len(),
            hi == 0 || !spec_is_space(s@[hi - 1]),
            forall|j: int| 0 <= j < lo ==> spec_is_space(s@[j]),
        ensures
            0 <= lo <= hi,
            forall|j: int| 0 <= j < lo ==> spec_is_space(s@[j]),
            lo == hi || !spec_is_space(s@[lo as int]),
        decreases hi - lo,
    {
        if !is_space(s.get_char(lo)) {
            break;
        }
        lo = lo + 1;
    }
    proof {
        lemma_trim_end_subrange(s@, hi as int);
        let t = s@.subrange(0, hi as int);
        lemma_trim_start_subrange(t, lo as int);
        assert(t.subrange(lo as int, t.len() as int) =~= s@.subrange(lo as int, hi as int));
    }
    let mid: &str = s.substring_char(lo, hi);
    String::from_str(mid)
}

} // verus!
