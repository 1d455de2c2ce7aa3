//! Name derivation and folder-set keys.
//!
//! A container identity is derived from the final components of the
//! requested folders, sanitized and joined *in input order* under the fixed
//! `aide-` namespace prefix. The registry key, by contrast, sorts the
//! canonical folder paths, so that the same folder set in any order hits the
//! same registry entry. The order-dependence of the identity and the
//! order-independence of the key are both deliberate and both proved here.

use vstd::prelude::*;
use vstd::relations::sorted_by;
use vstd::seq_lib::lemma_sorted_unique;
use vstd::string::StrSliceExecFns;
use vstd::string::StringExecFns;

use crate::errors::Error;
use crate::text::{
    fold_lower, join_strings, join_with, lemma_lex_leq_reflexive,
    lemma_lex_leq_strongly_connected, lemma_lex_leq_total_ordering, lemma_lex_leq_transitive,
    lex_leq, lex_leq_fn, push_char, spec_fold_lower, str_le,
};

verus! {

/// The characters a sanitized name may draw from (before lowercase
/// folding): ASCII letters, digits, `-` and `_`.
pub open spec fn keeps_char(c: char) -> bool {
    ('a' <= c && c <= 'z') || ('A' <= c && c <= 'Z') || ('0' <= c && c <= '9') || c == '-' || c
        == '_'
}

fn is_kept_char(c: char) -> (r: bool)
    ensures
        r == keeps_char(c),
{
    ('a' <= c && c <= 'z') || ('A' <= c && c <= 'Z') || ('0' <= c && c <= '9') || c == '-' || c
        == '_'
}

/// The sanitized form of a name: uppercase ASCII folded to lowercase, every
/// character outside `[a-z0-9_-]` dropped.
pub open spec fn sanitized(s: Seq<char>) -> Seq<char>
    decreases s.len(),
{
    if s.len() == 0 {
        Seq::empty()
    } else {
        let rest = sanitized(s.drop_last());
        if keeps_char(s.last()) {
            rest.push(spec_fold_lower(s.last()))
        } else {
            rest
        }
    }
}

/// Sanitize a string for use in a container identity.
pub fn sanitize_name(s: &str) -> (r: String)
    ensures
        r@ == sanitized(s@),
{
    let n: usize = s.unicode_len();
    let mut out = String::new();
    let mut i: usize = 0;
    proof {
        assert(s@.subrange(0, 0) =~= Seq::<char>::empty());
    }
    while i < n
        invariant
            i <= n,
            n == s@.len(),
            out@ == sanitized(s@.subrange(0, i as int)),
        decreases n - i,
    {
        let c = s.get_char(i);
        proof {
            assert(s@.subrange(0, i + 1).drop_last() =~= s@.subrange(0, i as int));
            assert(s@.subrange(0, i + 1).last() == s@[i as int]);
        }
        if is_kept_char(c) {
            push_char(&mut out, fold_lower(c));
        }
        i = i + 1;
    }
    proof {
        assert(s@.subrange(0, n as int) =~= s@);
    }
    out
}

/// The sanitized names that survive: each folder name sanitized, empty
/// results discarded, input order kept.
pub open spec fn kept_names(names: Seq<Seq<char>>) -> Seq<Seq<char>>
    decreases names.len(),
{
    if names.len() == 0 {
        Seq::empty()
    } else {
        let rest = kept_names(names.drop_last());
        let s = sanitized(names.last());
        if s.len() > 0 {
            rest.push(s)
        } else {
            rest
        }
    }
}

/// Every surviving name is non-empty.
pub proof fn lemma_kept_names_nonempty(names: Seq<Seq<char>>)
    ensures
        forall|j: int|
            0 <= j < kept_names(names).len() ==> #[trigger] kept_names(names)[j].len() > 0,
    decreases names.len(),
{
    if names.len() > 0 {
        lemma_kept_names_nonempty(names.drop_last());
        let rest = kept_names(names.drop_last());
        assert forall|j: int| 0 <= j < kept_names(names).len() implies #[trigger] kept_names(
            names,
        )[j].len() > 0 by {
            if sanitized(names.last()).len() > 0 {
                if j < rest.len() {
                    assert(kept_names(names)[j] == rest[j]);
                } else {
                    assert(kept_names(names)[j] == sanitized(names.last()));
                }
            } else {
                assert(kept_names(names)[j] == rest[j]);
            }
        }
    }
}

/// The namespace prefix every derived identity starts with.
pub open spec fn name_prefix() -> Seq<char> {
    seq!['a', 'i', 'd', 'e', '-']
}

/// The identity derived from a list of folder names: the surviving
/// sanitized names joined with `-` in input order, prefixed with the
/// namespace prefix, cut to at most 64 characters.
pub open spec fn derived_identity(names: Seq<Seq<char>>) -> Seq<char> {
    let full = name_prefix() + join_with(kept_names(names), '-');
    if full.len() > 64 {
        full.subrange(0, 64)
    } else {
        full
    }
}

/// Derive a container identity from the final components of the requested
/// folders. Fails with [`Error::NoDerivableName`] exactly when no folder
/// name survives sanitization.
pub fn derive_container_name(folder_names: &Vec<String>) -> (r: Result<String, Error>)
    ensures
        r is Ok <==> kept_names(folder_names.deep_view()).len() > 0,
        r matches Ok(s) ==> s@ == derived_identity(folder_names.deep_view()),
        r matches Err(e) ==> e == Error::NoDerivableName,
{
    let ghost dv = folder_names.deep_view();
    let mut kept: Vec<String> = Vec::new();
    let mut i: usize = 0;
    proof {
        assert(kept.deep_view() =~= kept_names(dv.subrange(0, 0)));
    }
    while i < folder_names.len()
        invariant
            i <= folder_names@.len(),
            dv == folder_names.deep_view(),
            dv.len() == folder_names@.len(),
            kept.deep_view() == kept_names(dv.subrange(0, i as int)),
        decreases folder_names@.len() - i,
    {
        let s = sanitize_name(folder_names[i].as_str());
        proof {
            assert(folder_names@[i as int]@ == dv[i as int]);
            assert(dv.subrange(0, i + 1).drop_last() =~= dv.subrange(0, i as int));
            assert(dv.subrange(0, i + 1).last() == dv[i as int]);
        }
        let ghost old_kept = kept.deep_view();
        if !s.as_str().is_empty() {
            let ghost sv = s@;
            kept.push(s);
            proof {
                assert(kept.deep_view() =~= old_kept.push(sv));
            }
        }
        i = i + 1;
    }
    proof {
        assert(dv.subrange(0, dv.len() as int) =~= dv);
    }
    if kept.len() == 0 {
        return Err(Error::NoDerivableName);
    }
    let joined = join_strings(&kept, '-');
    let mut name = String::from_str("aide-");
    proof {
        reveal_strlit("aide-");
        assert(name@ =~= name_prefix());
    }
    name.append(joined.as_str());
    let total: usize = name.as_str().unicode_len();
    if total > 64 {
        let cut: &str = name.as_str().substring_char(0, 64);
        Ok(String::from_str(cut))
    } else {
        Ok(name)
    }
}

/// Derivation is deterministic, so deriving twice from the same ordered
/// folder list yields the same identity: any two results of
/// [`derive_container_name`] on one list agree, since each equals
/// [`derived_identity`] of that list.
pub proof fn lemma_derive_deterministic(names: Seq<Seq<char>>, first: Seq<char>, second: Seq<char>)
    requires
        first == derived_identity(names),
        second == derived_identity(names),
    ensures
        first == second,
{
}

/// The registry key of a folder set: the canonical paths sorted
/// lexicographically and joined with `:`.
pub open spec fn folder_set_key(paths: Seq<Seq<char>>) -> Seq<char> {
    join_with(paths.sort_by(lex_leq_fn()), ':')
}

proof fn lemma_push_to_multiset(s: Seq<Seq<char>>, x: Seq<char>)
    ensures
        s.push(x).to_multiset() =~= s.to_multiset().insert(x),
{
    broadcast use vstd::seq_lib::group_to_multiset_ensures;

}

/// `to_multiset` does not care where an element is inserted.
proof fn lemma_insert_to_multiset(s: Seq<Seq<char>>, pos: int, x: Seq<char>)
    requires
        0 <= pos <= s.len(),
    ensures
        s.insert(pos, x).to_multiset() =~= s.to_multiset().insert(x),
{
    broadcast use vstd::seq_lib::group_to_multiset_ensures;
    broadcast use vstd::multiset::group_multiset_axioms;

    let left = s.subrange(0, pos);
    let right = s.subrange(pos, s.len() as int);
    assert(s =~= left + right);
    assert(s.insert(pos, x) =~= left.push(x) + right);
    vstd::seq_lib::lemma_multiset_commutative(left.push(x), right);
    vstd::seq_lib::lemma_multiset_commutative(left, right);
    assert(left.push(x).to_multiset() =~= left.to_multiset().insert(x));
    assert(left.to_multiset().insert(x).add(right.to_multiset()) =~= left.to_multiset().add(
        right.to_multiset(),
    ).insert(x));
}

/// Sort the strings lexicographically; the result is exactly
/// `sort_by(lex_leq)` of the input.
pub fn sort_strings(v: &Vec<String>) -> (r: Vec<String>)
    ensures
        r.deep_view() == v.deep_view().sort_by(lex_leq_fn()),
{
    let ghost dv = v.deep_view();
    let ghost leq = lex_leq_fn();
    let mut out: Vec<String> = Vec::new();
    let mut i: usize = 0;
    proof {
        lemma_lex_leq_total_ordering();
        assert(dv.subrange(0, 0) =~= Seq::<Seq<char>>::empty());
        assert(out.deep_view() =~= Seq::<Seq<char>>::empty());
        assert(out.deep_view().to_multiset() =~= dv.subrange(0, 0).to_multiset());
    }
    while i < v.len()
        invariant
            i <= v@.len(),
            dv == v.deep_view(),
            dv.len() == v@.len(),
            leq == lex_leq_fn(),
            sorted_by(out.deep_view(), leq),
            out.deep_view().to_multiset() == dv.subrange(0, i as int).to_multiset(),
        decreases v@.len() - i,
    {
        let x = v[i].clone();
        proof {
            assert(x@ == dv[i as int]);
        }
        let mut pos: usize = 0;
        loop
            invariant
                pos <= out@.len(),
                out.deep_view().len() == out@.len(),
                forall|k: int| 0 <= k < pos ==> lex_leq(#[trigger] out.deep_view()[k], x@),
            ensures
                0 <= pos <= out@.len(),
                forall|k: int| 0 <= k < pos ==> lex_leq(#[trigger] out.deep_view()[k], x@),
                pos < out@.len() ==> !lex_leq(out.deep_view()[pos as int], x@),
            decreases out@.len() - pos,
        {
            if pos == out.len() {
                break;
            }
            if !str_le(out[pos].as_str(), x.as_str()) {
                break;
            }
            pos = pos + 1;
        }
        let ghost old_out = out.deep_view();
        let ghost xv = x@;
        let ghost ipos = pos as int;
        out.insert(pos, x);
        proof {
            assert(out.deep_view() =~= old_out.insert(ipos, xv));
            // every element at or after the insertion point is at least `x`
            assert forall|k: int| ipos <= k < old_out.len() implies lex_leq(
                xv,
                #[trigger] old_out[k],
            ) by {
                lemma_lex_leq_strongly_connected(old_out[ipos], xv);
                if k > ipos {
                    assert(leq(old_out[ipos], old_out[k]));
                    lemma_lex_leq_transitive(xv, old_out[ipos], old_out[k]);
                }
            }
            let newv = old_out.insert(ipos, xv);
            assert forall|a: int, b: int| 0 <= a < b < newv.len() implies leq(
                newv[a],
                newv[b],
            ) by {
                if b < ipos {
                    assert(newv[a] == old_out[a] && newv[b] == old_out[b]);
                    assert(leq(old_out[a], old_out[b]));
                } else if a < ipos && b == ipos {
                    assert(newv[a] == old_out[a] && newv[b] == xv);
                    assert(lex_leq(old_out[a], xv));
                } else if a < ipos && b > ipos {
                    assert(newv[a] == old_out[a] && newv[b] == old_out[b - 1]);
                    if a < b - 1 {
                        assert(leq(old_out[a], old_out[b - 1]));
                    } else {
                        lemma_lex_leq_reflexive(old_out[a]);
                    }
                } else if a == ipos {
                    assert(newv[a] == xv && newv[b] == old_out[b - 1]);
                    assert(lex_leq(xv, old_out[b - 1]));
                } else {
                    assert(newv[a] == old_out[a - 1] && newv[b] == old_out[b - 1]);
                    assert(leq(old_out[a - 1], old_out[b - 1]));
                }
            }
            assert(sorted_by(newv, leq));
            lemma_insert_to_multiset(old_out, ipos, xv);
            assert(dv.subrange(0, i + 1) =~= dv.subrange(0, i as int).push(dv[i as int]));
            lemma_push_to_multiset(dv.subrange(0, i as int), dv[i as int]);
        }
        i = i + 1;
    }
    proof {
        assert(dv.subrange(0, dv.len() as int) =~= dv);
        dv.lemma_sort_by_ensures(leq);
        lemma_sorted_unique(out.deep_view(), dv.sort_by(leq), leq);
    }
    out
}

/// Build the registry key of a set of canonical folder paths.
pub fn folder_key(paths: &Vec<String>) -> (r: String)
    ensures
        r@ == folder_set_key(paths.deep_view()),
{
    let sorted = sort_strings(paths);
    join_strings(&sorted, ':')
}

/// The folder-set key does not depend on the order the folders were given
/// in: reversing the list leaves the key unchanged.
pub proof fn lemma_folder_key_order_independent(paths: Seq<Seq<char>>)
    ensures
        folder_set_key(paths) == folder_set_key(paths.reverse()),
{
    let leq = lex_leq_fn();
    lemma_lex_leq_total_ordering();
    paths.lemma_sort_by_ensures(leq);
    paths.reverse().lemma_sort_by_ensures(leq);
    paths.lemma_reverse_to_multiset();
    lemma_sorted_unique(paths.sort_by(leq), paths.reverse().sort_by(leq), leq);
}

/// Unfold [`kept_names`] at the front of the list.
proof fn lemma_kept_names_front(x: Seq<char>, t: Seq<Seq<char>>)
    ensures
        kept_names(seq![x] + t) == if sanitized(x).len() > 0 {
            seq![sanitized(x)] + kept_names(t)
        } else {
            kept_names(t)
        },
    decreases t.len(),
{
    let whole = seq![x] + t;
    if t.len() == 0 {
        assert(whole.len() == 1);
        assert(whole.drop_last() =~= t);
        assert(whole.last() == x);
        assert(kept_names(t).len() == 0);
        if sanitized(x).len() > 0 {
            assert(kept_names(whole) == kept_names(t).push(sanitized(x)));
            assert(kept_names(t).push(sanitized(x)) =~= seq![sanitized(x)] + kept_names(t));
        } else {
            assert(kept_names(whole) == kept_names(t));
        }
    } else {
        assert(whole.drop_last() =~= seq![x] + t.drop_last());
        assert(whole.last() == t.last());
        lemma_kept_names_front(x, t.drop_last());
        if sanitized(t.last()).len() > 0 {
            assert(kept_names(whole) == kept_names(seq![x] + t.drop_last()).push(
                sanitized(t.last()),
            ));
            assert(kept_names(t) == kept_names(t.drop_last()).push(sanitized(t.last())));
            if sanitized(x).len() > 0 {
                assert((seq![sanitized(x)] + kept_names(t.drop_last())).push(
                    sanitized(t.last()),
                ) =~= seq![sanitized(x)] + kept_names(t.drop_last()).push(sanitized(t.last())));
            }
        } else {
            assert(kept_names(whole) == kept_names(seq![x] + t.drop_last()));
            assert(kept_names(t) == kept_names(t.drop_last()));
        }
    }
}

/// Reversing the folder list reverses the surviving sanitized names.
proof fn lemma_kept_names_reverse(names: Seq<Seq<char>>)
    ensures
        kept_names(names.reverse()) == kept_names(names).reverse(),
    decreases names.len(),
{
    if names.len() == 0 {
        assert(names.reverse() =~= names);
        assert(kept_names(names).reverse() =~= kept_names(names));
    } else {
        let rest = names.drop_last();
        let x = names.last();
        lemma_kept_names_reverse(rest);
        assert(names.reverse() =~= seq![x] + rest.reverse());
        lemma_kept_names_front(x, rest.reverse());
        if sanitized(x).len() > 0 {
            assert(kept_names(names) == kept_names(rest).push(sanitized(x)));
            assert(kept_names(names).reverse() =~= seq![sanitized(x)] + kept_names(
                rest,
            ).reverse());
        } else {
            assert(kept_names(names) == kept_names(rest));
        }
    }
}

/// A joined list starts with the first character of its first part.
proof fn lemma_join_with_first(parts: Seq<Seq<char>>, sep: char)
    requires
        parts.len() > 0,
        parts[0].len() > 0,
    ensures
        join_with(parts, sep).len() > 0,
        join_with(parts, sep)[0] == parts[0][0],
    decreases parts.len(),
{
    if parts.len() > 1 {
        assert(parts.drop_last()[0] == parts[0]);
        lemma_join_with_first(parts.drop_last(), sep);
    }
}

/// Joining the reversed parts yields a list of the same length.
proof fn lemma_join_with_reverse_len(parts: Seq<Seq<char>>, sep: char)
    ensures
        join_with(parts.reverse(), sep).len() == join_with(parts, sep).len(),
    decreases parts.len(),
{
    if parts.len() == 0 {
        assert(parts.reverse() =~= parts);
    } else if parts.len() == 1 {
        assert(parts.reverse() =~= parts);
    } else {
        let rest = parts.drop_last();
        let x = parts.last();
        lemma_join_with_reverse_len(rest, sep);
        assert(parts.reverse() =~= seq![x] + rest.reverse());
        lemma_join_with_front(x, rest.reverse(), sep);
        assert(rest.reverse().len() == rest.len());
    }
}

/// Unfold [`join_with`] at the front of the list.
proof fn lemma_join_with_front(x: Seq<char>, t: Seq<Seq<char>>, sep: char)
    ensures
        join_with(seq![x] + t, sep) == if t.len() == 0 {
            x
        } else {
            x + seq![sep] + join_with(t, sep)
        },
    decreases t.len(),
{
    let whole = seq![x] + t;
    if t.len() == 0 {
        assert(whole =~= seq![x]);
        assert(join_with(seq![x], sep) == x);
    } else if t.len() == 1 {
        assert(whole.drop_last() =~= seq![x]);
        assert(whole.last() == t[0]);
        assert(join_with(whole, sep) == join_with(seq![x], sep) + seq![sep] + t[0]);
        assert(join_with(t, sep) == t[0]);
    } else {
        assert(whole.drop_last() =~= seq![x] + t.drop_last());
        assert(whole.last() == t.last());
        lemma_join_with_front(x, t.drop_last(), sep);
        assert(join_with(whole, sep) == join_with(seq![x] + t.drop_last(), sep) + seq![sep]
            + t.last());
        assert(join_with(t, sep) == join_with(t.drop_last(), sep) + seq![sep] + t.last());
        assert((x + seq![sep] + join_with(t.drop_last(), sep)) + seq![sep] + t.last() =~= x
            + seq![sep] + (join_with(t.drop_last(), sep) + seq![sep] + t.last()));
    }
}

/// Derivation is order-dependent: when at least two names survive, the
/// first characters of the first and last surviving names differ, and no
/// truncation occurs, reversing the folder list changes the derived
/// identity. (With truncation, or when the reversed join happens to spell
/// the same list -- as with the surviving names `x` and `x-x` -- the two
/// orders can collide.)
pub proof fn lemma_derived_identity_order_dependent(names: Seq<Seq<char>>)
    requires
        kept_names(names).len() >= 2,
        kept_names(names)[0][0] != kept_names(names)[kept_names(names).len() - 1][0],
        name_prefix().len() + join_with(kept_names(names), '-').len() <= 64,
    ensures
        derived_identity(names) != derived_identity(names.reverse()),
{
    let kept = kept_names(names);
    let n = kept.len();
    lemma_kept_names_nonempty(names);
    assert(kept[0].len() > 0 && kept[n - 1].len() > 0);
    lemma_kept_names_reverse(names);
    let keptr = kept_names(names.reverse());
    assert(keptr == kept.reverse());
    assert(keptr[0] == kept[n - 1]);
    lemma_join_with_reverse_len(kept, '-');
    lemma_join_with_first(kept, '-');
    lemma_join_with_first(keptr, '-');
    let fwd = name_prefix() + join_with(kept, '-');
    let bwd = name_prefix() + join_with(keptr, '-');
    assert(fwd.len() == bwd.len());
    assert(fwd.len() <= 64);
    assert(derived_identity(names) == fwd);
    assert(derived_identity(names.reverse()) == bwd);
    assert(fwd[name_prefix().len() as int] == kept[0][0]);
    assert(bwd[name_prefix().len() as int] == kept[n - 1][0]);
}

} // verus!
