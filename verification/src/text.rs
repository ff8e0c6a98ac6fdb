//! Character and string operations on `Seq<char>` views.

use vstd::prelude::*;

verus! {

/// The Unicode `White_Space` property, which is what `char::is_whitespace` tests.
pub open spec fn spec_is_whitespace(c: char) -> bool {
    let u = c as u32;
    ||| 0x09 <= u <= 0x0d
    ||| u == 0x20
    ||| u == 0x85
    ||| u == 0xa0
    ||| u == 0x1680
    ||| 0x2000 <= u <= 0x200a
    ||| u == 0x2028
    ||| u == 0x2029
    ||| u == 0x202f
    ||| u == 0x205f
    ||| u == 0x3000
}

/// Whether `c` has the Unicode `White_Space` property.
pub fn is_whitespace(c: char) -> (r: bool)
    ensures
        r == spec_is_whitespace(c),
{
    let u = c as u32;
    (0x09 <= u && u <= 0x0d) || u == 0x20 || u == 0x85 || u == 0xa0 || u == 0x1680 || (0x2000 <= u
        && u <= 0x200a) || u == 0x2028 || u == 0x2029 || u == 0x202f || u == 0x205f || u == 0x3000
}

/// ASCII lower-casing of one character: `A`..=`Z` map to `a`..=`z`, all else is kept.
pub open spec fn spec_ascii_lower(c: char) -> char {
    if 'A' <= c && c <= 'Z' {
        ((c as u32) + 32) as char
    } else {
        c
    }
}

pub fn ascii_lower(c: char) -> (r: char)
    ensures
        r == spec_ascii_lower(c),
{
    if 'A' <= c && c <= 'Z' {
        let b = (c as u8) + 32;
        b as char
    } else {
        c
    }
}


/// `String::push`: appends `c` at the end of `s`.
#[verifier::external_body]
fn push_char(s: &mut String, c: char)
    ensures
        final(s)@ == old(s)@.push(c),
{
    s.push(c);
}

/// The characters of `s`, in order.
pub fn chars_of(s: &str) -> (v: Vec<char>)
    ensures
        v@ == s@,
{
    broadcast use vstd::string::group_string_axioms;
    let mut v: Vec<char> = Vec::new();
    for c in it: s.chars()
        invariant
            it.seq() == s@,
            v@ == s@.take(it.index()),
        ensures
            v@ == s@,
    {
        v.push(c);
        assert(s@.take(it.index() + 1) =~= s@.take(it.index()).push(c));
    }
    v
}

/// The string made of `v[lo..hi]`.
pub fn string_of_range(v: &[char], lo: usize, hi: usize) -> (s: String)
    requires
        lo <= hi <= v@.len(),
    ensures
        s@ == v@.subrange(lo as int, hi as int),
{
    let mut s = String::new();
    let mut i = lo;
    while i < hi
        invariant
            lo <= i <= hi <= v@.len(),
            s@ == v@.subrange(lo as int, i as int),
        decreases hi - i,
    {
        push_char(&mut s, v[i]);
        assert(v@.subrange(lo as int, i + 1) =~= v@.subrange(lo as int, i as int).push(v@[i as int]));
        i += 1;
    }
    s
}


/// Drops the leading characters with the `White_Space` property (`str::trim_start`).
pub open spec fn trim_start_spec(s: Seq<char>) -> Seq<char>
    decreases s.len(),
{
    if s.len() > 0 && spec_is_whitespace(s[0]) {
        trim_start_spec(s.drop_first())
    } else {
        s
    }
}

/// Drops the trailing characters with the `White_Space` property (`str::trim_end`).
pub open spec fn trim_end_spec(s: Seq<char>) -> Seq<char>
    decreases s.len(),
{
    if s.len() > 0 && spec_is_whitespace(s.last()) {
        trim_end_spec(s.drop_last())
    } else {
        s
    }
}

/// Drops leading and trailing whitespace (`str::trim`).
pub open spec fn trim_spec(s: Seq<char>) -> Seq<char> {
    trim_end_spec(trim_start_spec(s))
}

/// ASCII lower-casing of every character (`str::to_ascii_lowercase`).
pub open spec fn ascii_lower_seq(s: Seq<char>) -> Seq<char> {
    s.map_values(|c: char| spec_ascii_lower(c))
}

/// `p` occurs in `s` starting at index `i`.
pub open spec fn occurs_at(s: Seq<char>, p: Seq<char>, i: int) -> bool {
    0 <= i && i + p.len() <= s.len() && s.subrange(i, i + p.len()) == p
}

/// `p` is a substring of `s` (`str::contains`); the empty string is a substring of all.
pub open spec fn is_substring(p: Seq<char>, s: Seq<char>) -> bool {
    exists|i: int| #[trigger] occurs_at(s, p, i)
}

/// Removes `p` from the front of `s` as often as it is there (`str::trim_start_matches`).
pub open spec fn strip_prefixes(s: Seq<char>, p: Seq<char>) -> Seq<char>
    decreases s.len(),
{
    if p.len() > 0 && p.is_prefix_of(s) {
        strip_prefixes(s.skip(p.len() as int), p)
    } else {
        s
    }
}

/// Removes `p` from the back of `s` as often as it is there (`str::trim_end_matches`).
pub open spec fn strip_suffixes(s: Seq<char>, p: Seq<char>) -> Seq<char>
    decreases s.len(),
{
    if p.len() > 0 && p.is_suffix_of(s) {
        strip_suffixes(s.take(s.len() - p.len()), p)
    } else {
        s
    }
}

/// Equality after ASCII lower-casing (`str::eq_ignore_ascii_case`).
pub open spec fn eq_ignore_ascii_case_spec(a: Seq<char>, b: Seq<char>) -> bool {
    ascii_lower_seq(a) == ascii_lower_seq(b)
}

proof fn lemma_trim_start_at(s: Seq<char>, lo: int)
    requires
        0 <= lo <= s.len(),
        forall|k: int| 0 <= k < lo ==> spec_is_whitespace(#[trigger] s[k]),
        lo == s.len() || !spec_is_whitespace(s[lo]),
    ensures
        trim_start_spec(s) == s.skip(lo),
    decreases lo,
{
    if lo > 0 {
        let t = s.drop_first();
        assert forall|k: int| 0 <= k < lo - 1 implies spec_is_whitespace(#[trigger] t[k]) by {
            assert(t[k] == s[k + 1]);
        }
        lemma_trim_start_at(t, lo - 1);
        assert(t.skip(lo - 1) =~= s.skip(lo));
    } else {
        assert(s.skip(0) =~= s);
    }
}

proof fn lemma_trim_end_at(s: Seq<char>, hi: int)
    requires
        0 <= hi <= s.len(),
        forall|k: int| hi <= k < s.len() ==> spec_is_whitespace(#[trigger] s[k]),
        hi == 0 || !spec_is_whitespace(s[hi - 1]),
    ensures
        trim_end_spec(s) == s.take(hi),
    decreases s.len() - hi,
{
    if hi < s.len() {
        let t = s.drop_last();
        assert forall|k: int| hi <= k < t.len() implies spec_is_whitespace(#[trigger] t[k]) by {
            assert(t[k] == s[k]);
        }
        lemma_trim_end_at(t, hi);
        assert(t.take(hi) =~= s.take(hi));
    } else {
        assert(s.take(hi) =~= s);
    }
}

/// Index of the first character of `v` that is not whitespace, or `v.len()`.
fn first_non_whitespace(v: &[char]) -> (lo: usize)
    ensures
        lo <= v@.len(),
        forall|k: int| 0 <= k < lo ==> spec_is_whitespace(#[trigger] v@[k]),
        lo == v@.len() || !spec_is_whitespace(v@[lo as int]),
{
    let mut lo: usize = 0;
    while lo < v.len() && is_whitespace(v[lo])
        invariant
            lo <= v@.len(),
            forall|k: int| 0 <= k < lo ==> spec_is_whitespace(#[trigger] v@[k]),
        decreases v@.len() - lo,
    {
        lo += 1;
    }
    lo
}

/// One past the index of the last character of `v[lo..]` that is not whitespace, or `lo`.
fn end_of_non_whitespace(v: &[char], lo: usize) -> (hi: usize)
    requires
        lo <= v@.len(),
    ensures
        lo <= hi <= v@.len(),
        forall|k: int| hi <= k < v@.len() ==> spec_is_whitespace(#[trigger] v@[k]),
        hi == lo || !spec_is_whitespace(v@[hi - 1]),
{
    let mut hi: usize = v.len();
    while hi > lo && is_whitespace(v[hi - 1])
        invariant
            lo <= hi <= v@.len(),
            forall|k: int| hi <= k < v@.len() ==> spec_is_whitespace(#[trigger] v@[k]),
        decreases hi,
    {
        hi -= 1;
    }
    hi
}

/// The bounds `lo..hi` of `v` that `str::trim` keeps.
pub fn trim_bounds(v: &[char]) -> (r: (usize, usize))
    ensures
        r.0 <= r.1 <= v@.len(),
        v@.subrange(r.0 as int, r.1 as int) == trim_spec(v@),
{
    let lo = first_non_whitespace(v);
    let hi = end_of_non_whitespace(v, lo);
    proof {
        lemma_trim_start_at(v@, lo as int);
        let t = v@.skip(lo as int);
        assert forall|k: int| hi - lo <= k < t.len() implies spec_is_whitespace(#[trigger] t[k]) by {
            assert(t[k] == v@[k + lo]);
        }
        if hi == lo && lo < v@.len() {
            assert(!spec_is_whitespace(v@[lo as int]));
            assert(spec_is_whitespace(v@[lo as int]));
        }
        lemma_trim_end_at(t, hi - lo);
        assert(t.take(hi - lo) =~= v@.subrange(lo as int, hi as int));
    }
    (lo, hi)
}

/// `str::trim`: `s` without its leading and trailing whitespace.
pub fn trim(s: &str) -> (r: String)
    ensures
        r@ == trim_spec(s@),
{
    let v = chars_of(s);
    let (lo, hi) = trim_bounds(v.as_slice());
    string_of_range(v.as_slice(), lo, hi)
}

/// `str::trim_start`: `s` without its leading whitespace.
pub fn trim_start(s: &str) -> (r: String)
    ensures
        r@ == trim_start_spec(s@),
{
    let v = chars_of(s);
    let lo = first_non_whitespace(v.as_slice());
    proof {
        lemma_trim_start_at(v@, lo as int);
        assert(v@.skip(lo as int) =~= v@.subrange(lo as int, v@.len() as int));
    }
    string_of_range(v.as_slice(), lo, v.len())
}

/// `str::to_ascii_lowercase` on a character sequence.
pub fn ascii_lowercase_chars(v: &[char]) -> (r: Vec<char>)
    ensures
        r@ == ascii_lower_seq(v@),
{
    let mut r: Vec<char> = Vec::new();
    let mut i: usize = 0;
    while i < v.len()
        invariant
            i <= v@.len(),
            r@ == ascii_lower_seq(v@.take(i as int)),
        decreases v@.len() - i,
    {
        r.push(ascii_lower(v[i]));
        assert(ascii_lower_seq(v@.take(i + 1)) =~= ascii_lower_seq(v@.take(i as int)).push(
            spec_ascii_lower(v@[i as int]),
        ));
        i += 1;
    }
    assert(v@.take(i as int) =~= v@);
    r
}

/// `str::to_ascii_lowercase`.
pub fn to_ascii_lowercase(s: &str) -> (r: String)
    ensures
        r@ == ascii_lower_seq(s@),
{
    let v = ascii_lowercase_chars(chars_of(s).as_slice());
    let r = string_of_range(v.as_slice(), 0, v.len());
    assert(v@.subrange(0, v@.len() as int) =~= v@);
    r
}

/// Whether `a` and `b` hold the same characters.
pub fn chars_eq(a: &[char], b: &[char]) -> (r: bool)
    ensures
        r == (a@ == b@),
{
    if a.len() != b.len() {
        return false;
    }
    let mut i: usize = 0;
    while i < a.len()
        invariant
            a@.len() == b@.len(),
            i <= a@.len(),
            forall|k: int| 0 <= k < i ==> a@[k] == b@[k],
        decreases a@.len() - i,
    {
        if a[i] != b[i] {
            return false;
        }
        i += 1;
    }
    assert(a@ =~= b@);
    true
}

/// Whether `p` occurs in `s` at index `i`.
pub fn occurs_at_exec(s: &[char], p: &[char], i: usize) -> (r: bool)
    ensures
        r == occurs_at(s@, p@, i as int),
{
    if i > s.len() || p.len() > s.len() - i {
        return false;
    }
    let mut j: usize = 0;
    while j < p.len()
        invariant
            i + p@.len() <= s@.len(),
            s@.len() == s.len(),
            j <= p@.len(),
            forall|k: int| 0 <= k < j ==> s@[i + k] == p@[k],
        decreases p@.len() - j,
    {
        if s[i + j] != p[j] {
            assert(s@.subrange(i as int, i + p@.len())[j as int] != p@[j as int]);
            return false;
        }
        j += 1;
    }
    assert(s@.subrange(i as int, i + p@.len()) =~= p@);
    true
}

/// `str::starts_with` on character sequences.
pub fn starts_with(s: &[char], p: &[char]) -> (r: bool)
    ensures
        r == p@.is_prefix_of(s@),
{
    let r = occurs_at_exec(s, p, 0);
    assert(r == p@.is_prefix_of(s@)) by {
        if p@.len() <= s@.len() {
            assert(s@.subrange(0, p@.len() as int) =~= s@.subrange(0int, 0int + p@.len()));
        }
    }
    r
}

/// `str::contains` on character sequences.
pub fn contains(s: &[char], p: &[char]) -> (r: bool)
    ensures
        r == is_substring(p@, s@),
{
    if p.len() > s.len() {
        assert(!is_substring(p@, s@));
        return false;
    }
    if p.len() == 0 {
        assert(s@.subrange(0, 0) =~= p@);
        assert(occurs_at(s@, p@, 0));
        return true;
    }
    let last = s.len() - p.len();
    let mut i: usize = 0;
    while i <= last
        invariant
            last + p@.len() == s@.len(),
            p@.len() > 0,
            s@.len() == s.len(),
            i <= last + 1,
            forall|k: int| 0 <= k < i ==> !#[trigger] occurs_at(s@, p@, k),
        decreases last + 1 - i,
    {
        if occurs_at_exec(s, p, i) {
            return true;
        }
        i += 1;
    }
    assert forall|k: int| !#[trigger] occurs_at(s@, p@, k) by {
        if 0 <= k < i {
        }
    }
    false
}

/// `str::eq_ignore_ascii_case` on character sequences.
pub fn eq_ignore_ascii_case(a: &[char], b: &[char]) -> (r: bool)
    ensures
        r == eq_ignore_ascii_case_spec(a@, b@),
{
    let la = ascii_lowercase_chars(a);
    let lb = ascii_lowercase_chars(b);
    chars_eq(la.as_slice(), lb.as_slice())
}

/// `str::trim_start_matches` with a string pattern, on character sequences.
pub fn trim_start_matches(s: &[char], p: &[char]) -> (r: Vec<char>)
    ensures
        r@ == strip_prefixes(s@, p@),
{
    let mut pos: usize = 0;
    assert(s@.skip(0) =~= s@);
    if p.len() > 0 {
        while occurs_at_exec(s, p, pos)
            invariant
                p@.len() > 0,
                pos <= s@.len(),
                s@.len() == s.len(),
                strip_prefixes(s@, p@) == strip_prefixes(s@.skip(pos as int), p@),
            decreases s@.len() - pos,
        {
            assert(p@.is_prefix_of(s@.skip(pos as int))) by {
                assert(s@.skip(pos as int).subrange(0, p@.len() as int) =~= s@.subrange(
                    pos as int,
                    pos + p@.len(),
                ));
            }
            assert(s@.skip(pos as int).skip(p@.len() as int) =~= s@.skip(pos + p@.len()));
            pos = pos + p.len();
        }
        assert(!p@.is_prefix_of(s@.skip(pos as int))) by {
            if p@.is_prefix_of(s@.skip(pos as int)) {
                assert(s@.skip(pos as int).subrange(0, p@.len() as int) =~= s@.subrange(
                    pos as int,
                    pos + p@.len(),
                ));
            }
        }
    }
    let r = chars_range(s, pos, s.len());
    assert(s@.subrange(pos as int, s@.len() as int) =~= s@.skip(pos as int));
    r
}

/// `str::trim_end_matches` with a string pattern, on character sequences.
pub fn trim_end_matches(s: &[char], p: &[char]) -> (r: Vec<char>)
    ensures
        r@ == strip_suffixes(s@, p@),
{
    let mut end: usize = s.len();
    assert(s@.take(s@.len() as int) =~= s@);
    if p.len() > 0 {
        while end >= p.len() && occurs_at_exec(s, p, end - p.len())
            invariant
                p@.len() > 0,
                end <= s@.len(),
                s@.len() == s.len(),
                strip_suffixes(s@, p@) == strip_suffixes(s@.take(end as int), p@),
            decreases end,
        {
            let ghost t = s@.take(end as int);
            assert(p@.is_suffix_of(t)) by {
                assert(t.subrange(t.len() - p@.len(), t.len() as int) =~= s@.subrange(
                    end - p@.len(),
                    end - p@.len() + p@.len(),
                ));
            }
            assert(t.take(t.len() - p@.len()) =~= s@.take(end - p@.len()));
            end = end - p.len();
        }
        assert(!p@.is_suffix_of(s@.take(end as int))) by {
            let t = s@.take(end as int);
            if p@.is_suffix_of(t) {
                assert(t.subrange(t.len() - p@.len(), t.len() as int) =~= s@.subrange(
                    end - p@.len(),
                    end - p@.len() + p@.len(),
                ));
            }
        }
    }
    let r = chars_range(s, 0, end);
    assert(s@.subrange(0, end as int) =~= s@.take(end as int));
    r
}

/// A copy of `v[lo..hi]`.
pub fn chars_range(v: &[char], lo: usize, hi: usize) -> (r: Vec<char>)
    requires
        lo <= hi <= v@.len(),
    ensures
        r@ == v@.subrange(lo as int, hi as int),
{
    let mut r: Vec<char> = Vec::new();
    let mut i = lo;
    while i < hi
        invariant
            lo <= i <= hi <= v@.len(),
            r@ == v@.subrange(lo as int, i as int),
        decreases hi - i,
    {
        r.push(v[i]);
        assert(v@.subrange(lo as int, i + 1) =~= v@.subrange(lo as int, i as int).push(v@[i as int]));
        i += 1;
    }
    r
}


proof fn lemma_trim_start_props(s: Seq<char>)
    ensures
        trim_start_spec(s).len() <= s.len(),
        trim_start_spec(s) == s.skip(s.len() - trim_start_spec(s).len()),
        trim_start_spec(s).len() == 0 || !spec_is_whitespace(trim_start_spec(s)[0]),
    decreases s.len(),
{
    if s.len() > 0 && spec_is_whitespace(s[0]) {
        lemma_trim_start_props(s.drop_first());
        let r = trim_start_spec(s.drop_first());
        assert(s.drop_first().skip(s.len() - 1 - r.len()) =~= s.skip(s.len() - r.len()));
    } else {
        assert(s.skip(0) =~= s);
    }
}

proof fn lemma_trim_end_props(s: Seq<char>)
    ensures
        trim_end_spec(s).len() <= s.len(),
        trim_end_spec(s) == s.take(trim_end_spec(s).len() as int),
        trim_end_spec(s).len() == 0 || !spec_is_whitespace(trim_end_spec(s).last()),
    decreases s.len(),
{
    if s.len() > 0 && spec_is_whitespace(s.last()) {
        lemma_trim_end_props(s.drop_last());
        let r = trim_end_spec(s.drop_last());
        assert(s.drop_last().take(r.len() as int) =~= s.take(r.len() as int));
    } else {
        assert(s.take(s.len() as int) =~= s);
    }
}

/// A trimmed string neither starts nor ends with whitespace.
pub proof fn lemma_trim_edges(s: Seq<char>)
    ensures
        trim_spec(s).len() > 0 ==> !spec_is_whitespace(trim_spec(s)[0]),
        trim_spec(s).len() > 0 ==> !spec_is_whitespace(trim_spec(s).last()),
{
    let u = trim_start_spec(s);
    lemma_trim_start_props(s);
    lemma_trim_end_props(u);
    let t = trim_end_spec(u);
    if t.len() > 0 {
        assert(t[0] == u[0]);
    }
}

/// Trimming twice is trimming once.
pub proof fn lemma_trim_idempotent(s: Seq<char>)
    ensures
        trim_spec(trim_spec(s)) == trim_spec(s),
{
    let t = trim_spec(s);
    lemma_trim_edges(s);
    assert(trim_start_spec(t) == t);
    assert(trim_end_spec(t) == t);
}


/// Whether `c` is an ASCII upper-case letter.
pub open spec fn is_ascii_upper(c: char) -> bool {
    'A' <= c && c <= 'Z'
}

/// ASCII lower-casing moves each letter `A`..=`Z` 32 code points up, to `a`..=`z`, and
/// leaves every other character as it is.
pub proof fn lemma_ascii_lower_char(c: char)
    ensures
        is_ascii_upper(c) ==> spec_ascii_lower(c) as u32 == c as u32 + 32,
        is_ascii_upper(c) ==> 'a' <= spec_ascii_lower(c) && spec_ascii_lower(c) <= 'z',
        !is_ascii_upper(c) ==> spec_ascii_lower(c) == c,
        !is_ascii_upper(spec_ascii_lower(c)),
{
}

/// Lower-casing a string lower-cases each character in place and leaves no ASCII
/// upper-case letter.
pub proof fn lemma_ascii_lower_seq(s: Seq<char>)
    ensures
        ascii_lower_seq(s).len() == s.len(),
        forall|i: int| 0 <= i < s.len() ==> #[trigger] ascii_lower_seq(s)[i] == spec_ascii_lower(s[i]),
        forall|i: int| 0 <= i < s.len() ==> !is_ascii_upper(#[trigger] ascii_lower_seq(s)[i]),
{
    assert forall|i: int| 0 <= i < s.len() implies !is_ascii_upper(#[trigger] ascii_lower_seq(s)[i]) by {
        lemma_ascii_lower_char(s[i]);
    }
}

/// Every character of `trim_spec(s)` is a character of `s`.
pub proof fn lemma_trim_is_part(s: Seq<char>)
    ensures
        trim_spec(s).len() <= s.len(),
        exists|lo: int| #![trigger s.subrange(lo, lo + trim_spec(s).len())]
            0 <= lo && lo + trim_spec(s).len() <= s.len() && s.subrange(lo, lo + trim_spec(s).len())
                == trim_spec(s),
{
    let u = trim_start_spec(s);
    lemma_trim_start_props(s);
    lemma_trim_end_props(u);
    let t = trim_end_spec(u);
    let lo = s.len() - u.len();
    assert(s.subrange(lo, lo + t.len()) =~= t);
}


/// Among ASCII characters, exactly tab, line feed, vertical tab, form feed, carriage return
/// and space are whitespace; letters and digits of any script below U+0085 are not.
pub proof fn lemma_ascii_whitespace(c: char)
    ensures
        (c as u32) < 0x80 ==> (spec_is_whitespace(c) <==> (c == '\t' || c == '\n' || c == '\x0b'
            || c == '\x0c' || c == '\r' || c == ' ')),
        (c as u32) < 0x85 && c != '\t' && c != '\n' && c != '\x0b' && c != '\x0c' && c != '\r' && c
            != ' ' ==> !spec_is_whitespace(c),
{
}

/// `trim_spec(s)` is `s` without a leading and a trailing run of whitespace: a block of
/// consecutive characters of `s`, everything before and after it whitespace.
pub proof fn lemma_trim_drops_only_whitespace(s: Seq<char>)
    ensures
        exists|lo: int|
            #![trigger s.subrange(lo, lo + trim_spec(s).len())]
            0 <= lo && lo + trim_spec(s).len() <= s.len() && s.subrange(lo, lo + trim_spec(s).len())
                == trim_spec(s) && (forall|k: int| 0 <= k < lo ==> spec_is_whitespace(#[trigger] s[k]))
                && (forall|k: int|
                lo + trim_spec(s).len() <= k < s.len() ==> spec_is_whitespace(#[trigger] s[k])),
{
    let lo = leading_ws(s);
    lemma_leading_ws(s);
    let t = s.skip(lo);
    lemma_trim_start_at(s, lo);
    let hi = trailing_end(t);
    lemma_trailing_end(t);
    lemma_trim_end_at(t, hi);
    assert(trim_spec(s) == t.take(hi));
    assert(s.subrange(lo, lo + hi) =~= t.take(hi));
    assert forall|k: int| lo + hi <= k < s.len() implies spec_is_whitespace(#[trigger] s[k]) by {
        assert(s[k] == t[k - lo]);
    }
}

/// The number of leading whitespace characters of `s`.
pub open spec fn leading_ws(s: Seq<char>) -> int
    decreases s.len(),
{
    if s.len() > 0 && spec_is_whitespace(s[0]) {
        1 + leading_ws(s.drop_first())
    } else {
        0
    }
}

proof fn lemma_leading_ws(s: Seq<char>)
    ensures
        0 <= leading_ws(s) <= s.len(),
        forall|k: int| 0 <= k < leading_ws(s) ==> spec_is_whitespace(#[trigger] s[k]),
        leading_ws(s) == s.len() || !spec_is_whitespace(s[leading_ws(s)]),
    decreases s.len(),
{
    if s.len() > 0 && spec_is_whitespace(s[0]) {
        let t = s.drop_first();
        lemma_leading_ws(t);
        assert forall|k: int| 0 <= k < leading_ws(s) implies spec_is_whitespace(#[trigger] s[k]) by {
            if k > 0 {
                assert(s[k] == t[k - 1]);
            }
        }
        if leading_ws(s) < s.len() {
            assert(s[leading_ws(s)] == t[leading_ws(t)]);
        }
    }
}

/// The length of `s` without its trailing whitespace.
pub open spec fn trailing_end(s: Seq<char>) -> int
    decreases s.len(),
{
    if s.len() > 0 && spec_is_whitespace(s.last()) {
        trailing_end(s.drop_last())
    } else {
        s.len() as int
    }
}

proof fn lemma_trailing_end(s: Seq<char>)
    ensures
        0 <= trailing_end(s) <= s.len(),
        forall|k: int| trailing_end(s) <= k < s.len() ==> spec_is_whitespace(#[trigger] s[k]),
        trailing_end(s) == 0 || !spec_is_whitespace(s[trailing_end(s) - 1]),
    decreases s.len(),
{
    if s.len() > 0 && spec_is_whitespace(s.last()) {
        let t = s.drop_last();
        lemma_trailing_end(t);
        assert forall|k: int| trailing_end(s) <= k < s.len() implies spec_is_whitespace(#[trigger] s[k]) by {
            if k < t.len() {
                assert(s[k] == t[k]);
            }
        }
        if trailing_end(s) > 0 {
            assert(s[trailing_end(s) - 1] == t[trailing_end(t) - 1]);
        }
    }
}

} // verus!
