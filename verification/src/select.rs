//! Choosing the installed version that `use` (and `alias current`) switches to.

use vstd::prelude::*;

use crate::text::{
    ascii_lower_seq, ascii_lowercase_chars, chars_of, chars_range, contains, is_substring, occurs_at,
    starts_with,
    string_of_range, to_ascii_lowercase, trim, trim_spec, is_ascii_upper, lemma_ascii_lower_char,
    lemma_ascii_lower_seq, lemma_trim_is_part,
};

verus! {

/// The character sequences of a sequence of strings.
pub open spec fn strings_view(s: Seq<String>) -> Seq<Seq<char>> {
    s.map_values(|x: String| x@)
}

/// The character sequences of a sequence of character vectors.
pub open spec fn chars_view(s: Seq<Vec<char>>) -> Seq<Seq<char>> {
    s.map_values(|x: Vec<char>| x@)
}

/// The query that a requested version is matched with: ASCII lower-cased, then trimmed.
pub open spec fn use_query(version: Seq<char>) -> Seq<char> {
    trim_spec(ascii_lower_seq(version))
}

/// The installed versions, ASCII lower-cased.
pub open spec fn lowered(installed: Seq<Seq<char>>) -> Seq<Seq<char>> {
    installed.map_values(|v: Seq<char>| ascii_lower_seq(v))
}

/// Holds of the versions that start with `q`.
pub open spec fn prefix_pred(q: Seq<char>) -> spec_fn(Seq<char>) -> bool {
    |x: Seq<char>| q.is_prefix_of(x)
}

/// Holds of the versions that contain `q`.
pub open spec fn substring_pred(q: Seq<char>) -> spec_fn(Seq<char>) -> bool {
    |x: Seq<char>| is_substring(q, x)
}

/// The versions among which `q` chooses: those it is a prefix of, or, where there are none,
/// those it is a substring of; in the order in which they are installed.
pub open spec fn use_candidates(q: Seq<char>, versions: Seq<Seq<char>>) -> Seq<Seq<char>> {
    let by_prefix = versions.filter(prefix_pred(q));
    if by_prefix.len() > 0 {
        by_prefix
    } else {
        versions.filter(substring_pred(q))
    }
}

/// Why no single installed version could be chosen.
#[derive(Debug, PartialEq, Eq)]
pub enum UseError {
    /// More than one installed version matches `version`; `matched` lists them.
    Ambiguous { version: String, matched: Vec<String> },
    /// No installed version matches `version`.
    NotInstalled { version: String },
}

/// Copies of the character vectors as strings.
fn strings_of(vs: &Vec<Vec<char>>) -> (r: Vec<String>)
    ensures
        strings_view(r@) == chars_view(vs@),
{
    let mut r: Vec<String> = Vec::new();
    let mut i: usize = 0;
    while i < vs.len()
        invariant
            i <= vs@.len(),
            r@.len() == i,
            strings_view(r@) == chars_view(vs@.take(i as int)),
        decreases vs@.len() - i,
    {
        let s = string_of_range(vs[i].as_slice(), 0, vs[i].len());
        assert(vs@[i as int]@.subrange(0, vs@[i as int]@.len() as int) =~= vs@[i as int]@);
        let ghost old_r = r@;
        r.push(s);
        assert forall|k: int| 0 <= k < i + 1 implies #[trigger] strings_view(r@)[k] == chars_view(
            vs@.take(i + 1),
        )[k] by {
            if k < i {
                assert(strings_view(old_r)[k] == chars_view(vs@.take(i as int))[k]);
                assert(r@[k] == old_r[k]);
            } else {
                assert(r@[k]@ == vs@[i as int]@);
                assert(vs@.take(i + 1)[k] == vs@[i as int]);
            }
        }
        assert(strings_view(r@) =~= chars_view(vs@.take(i + 1)));
        i += 1;
    }
    assert(vs@.take(i as int) =~= vs@);
    r
}

/// The installed versions as lower-cased character vectors.
fn lower_all(installed: &Vec<String>) -> (r: Vec<Vec<char>>)
    ensures
        chars_view(r@) == lowered(strings_view(installed@)),
{
    let mut r: Vec<Vec<char>> = Vec::new();
    let mut i: usize = 0;
    while i < installed.len()
        invariant
            i <= installed@.len(),
            r@.len() == i,
            chars_view(r@) == lowered(strings_view(installed@.take(i as int))),
        decreases installed@.len() - i,
    {
        let v = ascii_lowercase_chars(chars_of(installed[i].as_str()).as_slice());
        let ghost old_r = r@;
        r.push(v);
        assert forall|k: int| 0 <= k < i + 1 implies #[trigger] chars_view(r@)[k] == lowered(
            strings_view(installed@.take(i + 1)),
        )[k] by {
            if k < i {
                assert(chars_view(old_r)[k] == lowered(strings_view(installed@.take(i as int)))[k]);
                assert(r@[k] == old_r[k]);
            } else {
                assert(installed@.take(i + 1)[k] == installed@[i as int]);
                assert(strings_view(installed@.take(i + 1))[k] == installed@[i as int]@);
            }
        }
        assert(chars_view(r@) =~= lowered(strings_view(installed@.take(i + 1))));
        i += 1;
    }
    assert(installed@.take(i as int) =~= installed@);
    r
}

/// The versions of `xs` that start with `q` (`by_prefix`) or contain it (otherwise), in order.
fn matching(q: &[char], xs: &Vec<Vec<char>>, by_prefix: bool) -> (r: Vec<Vec<char>>)
    ensures
        chars_view(r@) == chars_view(xs@).filter(
            if by_prefix {
                prefix_pred(q@)
            } else {
                substring_pred(q@)
            },
        ),
{
    let ghost pred = if by_prefix {
        prefix_pred(q@)
    } else {
        substring_pred(q@)
    };
    let ghost all = chars_view(xs@);
    let mut r: Vec<Vec<char>> = Vec::new();
    let mut i: usize = 0;
    proof {
        reveal(Seq::filter);
        assert(all.take(0) =~= Seq::<Seq<char>>::empty());
    }
    while i < xs.len()
        invariant
            i <= xs@.len(),
            all == chars_view(xs@),
            pred == (if by_prefix {
                prefix_pred(q@)
            } else {
                substring_pred(q@)
            }),
            chars_view(r@) == all.take(i as int).filter(pred),
        decreases xs@.len() - i,
    {
        let x = xs[i].as_slice();
        let hit = if by_prefix {
            starts_with(x, q)
        } else {
            contains(x, q)
        };
        proof {
            assert(all.take(i + 1) =~= all.take(i as int).push(all[i as int]));
            all.take(i as int).lemma_filter_push(all[i as int], pred);
            assert(hit == pred(all[i as int]));
        }
        if hit {
            let copy = chars_range(x, 0, x.len());
            assert(x@.subrange(0, x@.len() as int) =~= x@);
            r.push(copy);
            assert(chars_view(r@) =~= all.take(i as int).filter(pred).push(all[i as int]));
        }
        i += 1;
    }
    assert(all.take(i as int) =~= all);
    r
}

/// Picks the installed version that `version` designates: the one installed version that
/// starts with it or, where none does, the one that contains it, both compared in ASCII
/// lower case after trimming. The chosen version is returned lower-cased.
pub fn select_version(version: &str, installed: &Vec<String>) -> (r: Result<String, UseError>)
    ensures
        ({
            let q = use_query(version@);
            let c = use_candidates(q, lowered(strings_view(installed@)));
            &&& (r is Ok) <==> c.len() == 1
            &&& r matches Ok(v) ==> v@ == c[0]
            &&& r matches Err(UseError::NotInstalled { version: v }) ==> c.len() == 0 && v@ == q
            &&& r matches Err(UseError::Ambiguous { version: v, matched: m }) ==> c.len() > 1
                && v@ == q && strings_view(m@) == c
        }),
{
    let lower = to_ascii_lowercase(version);
    let query = trim(lower.as_str());
    let q = chars_of(query.as_str());
    let versions = lower_all(installed);
    let mut matched = matching(q.as_slice(), &versions, true);
    if matched.len() == 0 {
        matched = matching(q.as_slice(), &versions, false);
    }
    proof {
        assert(chars_view(matched@).len() == matched@.len());
    }
    if matched.len() == 1 {
        let v = &matched[0];
        let r = string_of_range(v.as_slice(), 0, v.len());
        assert(v@.subrange(0, v@.len() as int) =~= v@);
        assert(chars_view(matched@)[0] == v@);
        Ok(r)
    } else if matched.len() == 0 {
        Err(UseError::NotInstalled { version: query })
    } else {
        Err(UseError::Ambiguous { version: query, matched: strings_of(&matched) })
    }
}


/// A version that the query is a prefix of also contains it.
pub proof fn lemma_prefix_is_substring(q: Seq<char>, x: Seq<char>)
    requires
        q.is_prefix_of(x),
    ensures
        is_substring(q, x),
{
    assert(occurs_at(x, q, 0));
}

/// Every candidate is one of the (lower-cased) installed versions and contains the query.
pub proof fn lemma_candidates_are_matching_installed(q: Seq<char>, xs: Seq<Seq<char>>, i: int)
    requires
        0 <= i < use_candidates(q, xs).len(),
    ensures
        xs.contains(use_candidates(q, xs)[i]),
        is_substring(q, use_candidates(q, xs)[i]),
{
    let c = use_candidates(q, xs);
    let by_prefix = xs.filter(prefix_pred(q));
    if by_prefix.len() > 0 {
        xs.lemma_filter_pred(prefix_pred(q), i);
        assert(by_prefix.contains(by_prefix[i]));
        xs.lemma_filter_contains_rev(prefix_pred(q), by_prefix[i]);
        lemma_prefix_is_substring(q, c[i]);
    } else {
        let by_sub = xs.filter(substring_pred(q));
        xs.lemma_filter_pred(substring_pred(q), i);
        assert(by_sub.contains(by_sub[i]));
        xs.lemma_filter_contains_rev(substring_pred(q), by_sub[i]);
    }
}


proof fn lemma_filter_none(xs: Seq<Seq<char>>, p: spec_fn(Seq<char>) -> bool)
    requires
        forall|j: int| 0 <= j < xs.len() ==> !p(#[trigger] xs[j]),
    ensures
        xs.filter(p) == Seq::<Seq<char>>::empty(),
    decreases xs.len(),
{
    reveal(Seq::filter);
    if xs.len() > 0 {
        let init = xs.drop_last();
        assert forall|j: int| 0 <= j < init.len() implies !p(#[trigger] init[j]) by {
            assert(init[j] == xs[j]);
        }
        lemma_filter_none(init, p);
        assert(!p(xs[xs.len() - 1]));
    }
}

proof fn lemma_filter_single(xs: Seq<Seq<char>>, p: spec_fn(Seq<char>) -> bool, k: int)
    requires
        0 <= k < xs.len(),
        p(xs[k]),
        forall|j: int| 0 <= j < xs.len() && j != k ==> !p(#[trigger] xs[j]),
    ensures
        xs.filter(p) == seq![xs[k]],
    decreases xs.len(),
{
    reveal(Seq::filter);
    let init = xs.drop_last();
    if k == xs.len() - 1 {
        assert forall|j: int| 0 <= j < init.len() implies !p(#[trigger] init[j]) by {
            assert(init[j] == xs[j]);
        }
        lemma_filter_none(init, p);
        assert(Seq::<Seq<char>>::empty().push(xs[k]) =~= seq![xs[k]]);
    } else {
        assert forall|j: int| 0 <= j < init.len() && j != k implies !p(#[trigger] init[j]) by {
            assert(init[j] == xs[j]);
        }
        assert(init[k] == xs[k]);
        lemma_filter_single(init, p, k);
        assert(!p(xs[xs.len() - 1]));
    }
}

/// Where exactly one installed version starts with the query, it is the one selected,
/// whatever other versions contain the query.
pub proof fn lemma_unique_prefix_selected(q: Seq<char>, xs: Seq<Seq<char>>, k: int)
    requires
        0 <= k < xs.len(),
        q.is_prefix_of(xs[k]),
        forall|j: int| 0 <= j < xs.len() && j != k ==> !q.is_prefix_of(#[trigger] xs[j]),
    ensures
        use_candidates(q, xs) == seq![xs[k]],
{
    lemma_filter_single(xs, prefix_pred(q), k);
}

/// Where no installed version starts with the query and exactly one contains it, that one
/// is selected.
pub proof fn lemma_unique_substring_selected(q: Seq<char>, xs: Seq<Seq<char>>, k: int)
    requires
        0 <= k < xs.len(),
        is_substring(q, xs[k]),
        forall|j: int| 0 <= j < xs.len() ==> !q.is_prefix_of(#[trigger] xs[j]),
        forall|j: int| 0 <= j < xs.len() && j != k ==> !is_substring(q, #[trigger] xs[j]),
    ensures
        use_candidates(q, xs) == seq![xs[k]],
{
    lemma_filter_none(xs, prefix_pred(q));
    lemma_filter_single(xs, substring_pred(q), k);
}


/// The query has no ASCII upper-case letter: `Temurin`, `TEMURIN` and `temurin` ask for the
/// same versions, and upper-case letters in installed versions never stop a match.
pub proof fn lemma_query_is_lower_case(version: Seq<char>)
    ensures
        forall|i: int| 0 <= i < use_query(version).len() ==> !is_ascii_upper(
            #[trigger] use_query(version)[i],
        ),
        forall|j: int| 0 <= j < version.len() && is_ascii_upper(version[j]) ==> #[trigger] ascii_lower_seq(version)[j] as u32 == version[j] as u32 + 32,
{
    let l = ascii_lower_seq(version);
    lemma_ascii_lower_seq(version);
    lemma_trim_is_part(l);
    let q = use_query(version);
    let lo = choose|lo: int| #![trigger l.subrange(lo, lo + q.len())] 0 <= lo && lo + q.len() <= l.len() && l.subrange(lo, lo + q.len()) == q;
    assert forall|i: int| 0 <= i < q.len() implies !is_ascii_upper(#[trigger] q[i]) by {
        assert(q[i] == l.subrange(lo, lo + q.len())[i]);
        assert(l[lo + i] == q[i]);
    }
    assert forall|j: int| 0 <= j < version.len() && is_ascii_upper(version[j]) implies #[trigger] ascii_lower_seq(version)[j] as u32 == version[j] as u32 + 32 by {
        lemma_ascii_lower_char(version[j]);
    }
}

/// Installed versions are compared lower-cased: each of them is its ASCII lower-casing,
/// character by character, in the order installed.
pub proof fn lemma_installed_lowered(installed: Seq<Seq<char>>, k: int)
    requires
        0 <= k < installed.len(),
    ensures
        lowered(installed).len() == installed.len(),
        lowered(installed)[k].len() == installed[k].len(),
        forall|i: int| 0 <= i < installed[k].len() ==> !is_ascii_upper(#[trigger] lowered(installed)[k][i]),
        forall|i: int| 0 <= i < installed[k].len() && !is_ascii_upper(installed[k][i]) ==> #[trigger] lowered(installed)[k][i] == installed[k][i],
{
    lemma_ascii_lower_seq(installed[k]);
    assert forall|i: int| 0 <= i < installed[k].len() && !is_ascii_upper(installed[k][i]) implies #[trigger] lowered(installed)[k][i] == installed[k][i] by {
        lemma_ascii_lower_char(installed[k][i]);
    }
}

} // verus!
