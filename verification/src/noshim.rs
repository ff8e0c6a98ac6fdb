//! Where the un-shimmed `jabba` lives, and how its output is read.

use vstd::prelude::*;

use crate::select::strings_view;
use crate::shim::{owned, push_arg};
use crate::text::{
    chars_eq, chars_of, lemma_trim_edges, spec_is_whitespace, string_of_range, trim, trim_bounds,
    trim_spec,
};

verus! {

/// The file name of the un-shimmed `jabba` executable inside the jabba home.
pub fn executable_name(windows: bool) -> (s: &'static str)
    ensures
        s@ == (if windows {
            "jabba-noshim.exe"@
        } else {
            "jabba-noshim"@
        }),
{
    if windows {
        "jabba-noshim.exe"
    } else {
        "jabba-noshim"
    }
}

/// The file inside the jabba home that records which `jabba` version was unpacked there.
pub fn version_file_name() -> (s: &'static str)
    ensures
        s@ == "jabba-version"@,
{
    "jabba-version"
}

/// The directory under the user's home that serves as jabba home by default.
pub fn default_home_dir_name() -> (s: &'static str)
    ensures
        s@ == ".jabba"@,
{
    ".jabba"
}

/// Why the jabba home could not be determined.
#[derive(Debug, Clone, Copy, PartialEq, Eq, Structural)]
pub enum HomeError {
    /// `JABBA_HOME` is unset or empty and the user's home directory is unknown.
    NoUserHome,
}

/// The jabba home, as path components to join: the value of `JABBA_HOME` where it is set
/// and not empty, else `.jabba` under the user's home directory.
pub fn home_components(env_home: Option<String>, user_home: Option<String>) -> (r: Result<
    Vec<String>,
    HomeError,
>)
    ensures
        (env_home matches Some(h) && h@.len() > 0) ==> (r matches Ok(p) && strings_view(p@)
            == seq![env_home->0@]),
        !(env_home matches Some(h) && h@.len() > 0) ==> (match user_home {
            Some(u) => r matches Ok(p) && strings_view(p@) == seq![u@, ".jabba"@],
            None => r == Err::<Vec<String>, HomeError>(HomeError::NoUserHome),
        }),
{
    let given = match env_home {
        Some(h) => if h.unicode_len() > 0 {
            Some(h)
        } else {
            None
        },
        None => None,
    };
    match given {
        Some(h) => {
            let mut p: Vec<String> = Vec::new();
            push_arg(&mut p, h);
            assert(strings_view(p@) =~= seq![env_home->0@]);
            Ok(p)
        },
        None => match user_home {
            Some(u) => {
                let mut p: Vec<String> = Vec::new();
                let ghost uv = u@;
                push_arg(&mut p, u);
                push_arg(&mut p, owned(default_home_dir_name()));
                assert(strings_view(p@) =~= seq![uv, ".jabba"@]);
                Ok(p)
            },
            None => Err(HomeError::NoUserHome),
        },
    }
}

/// Whether the bundled `jabba` must be unpacked into the jabba home: when the executable is
/// missing, when the recorded version cannot be read, or when it differs (both trimmed) from
/// the bundled `blessed` version.
pub fn needs_unpack(executable_found: bool, recorded: Option<&str>, blessed: &str) -> (r: bool)
    ensures
        r == (!executable_found || recorded is None || trim_spec(recorded->0@) != trim_spec(
            blessed@,
        )),
{
    if !executable_found {
        return true;
    }
    match recorded {
        None => true,
        Some(v) => {
            let a = trim(v);
            let b = trim(blessed);
            !chars_eq(chars_of(a.as_str()).as_slice(), chars_of(b.as_str()).as_slice())
        },
    }
}

/// What `jabba-noshim` printed, trimmed: its version, or the version `current` names.
pub fn output_text(stdout: &str) -> (r: String)
    ensures
        r@ == trim_spec(stdout@),
{
    trim(stdout)
}

/// `s` split at every `\n`; a string without `\n` is one piece.
pub open spec fn split_newlines(s: Seq<char>) -> Seq<Seq<char>>
    decreases s.len(),
{
    if s.len() == 0 {
        seq![Seq::<char>::empty()]
    } else {
        let rest = split_newlines(s.drop_last());
        if s.last() == '\n' {
            rest.push(Seq::<char>::empty())
        } else {
            rest.update(rest.len() - 1, rest.last().push(s.last()))
        }
    }
}

proof fn lemma_split_newlines_nonempty(s: Seq<char>)
    ensures
        split_newlines(s).len() > 0,
    decreases s.len(),
{
    if s.len() > 0 {
        lemma_split_newlines_nonempty(s.drop_last());
    }
}

/// The lines of `s` as `str::lines` gives them, up to a `\r` before each `\n`: the pieces
/// between `\n`s, without the empty piece after a final `\n` (and none for "").
pub open spec fn lines_spec(s: Seq<char>) -> Seq<Seq<char>> {
    let p = split_newlines(s);
    if p.last().len() == 0 {
        p.drop_last()
    } else {
        p
    }
}

/// Each line trimmed.
pub open spec fn trimmed_lines(s: Seq<char>) -> Seq<Seq<char>> {
    lines_spec(s).map_values(|l: Seq<char>| trim_spec(l))
}

/// `v` trimmed, as a string.
fn trimmed_string(v: &[char]) -> (r: String)
    ensures
        r@ == trim_spec(v@),
{
    let (lo, hi) = trim_bounds(v);
    string_of_range(v, lo, hi)
}

/// The installed versions that `jabba-noshim ls` printed: its lines, each trimmed.
pub fn parse_installed(stdout: &str) -> (r: Vec<String>)
    ensures
        strings_view(r@) == trimmed_lines(stdout@),
{
    let s = chars_of(stdout);
    let ghost sv = s@;
    let ghost mut done: Seq<Seq<char>> = Seq::empty();
    let mut r: Vec<String> = Vec::new();
    let mut cur: Vec<char> = Vec::new();
    let mut i: usize = 0;
    assert(sv.take(0) =~= Seq::<char>::empty());
    while i < s.len()
        invariant
            sv == s@,
            i <= s@.len(),
            r@.len() == done.len(),
            split_newlines(sv.take(i as int)) == done.push(cur@),
            strings_view(r@) == done.map_values(|l: Seq<char>| trim_spec(l)),
        decreases s@.len() - i,
    {
        let c = s[i];
        let ghost t = sv.take(i + 1);
        assert(t.drop_last() =~= sv.take(i as int));
        if c == '\n' {
            let line = trimmed_string(cur.as_slice());
            let ghost old_r = r@;
            r.push(line);
            proof {
                let nd = done.push(cur@);
                assert(strings_view(r@) =~= nd.map_values(|l: Seq<char>| trim_spec(l))) by {
                    assert forall|k: int| 0 <= k < nd.len() implies #[trigger] strings_view(r@)[k]
                        == nd.map_values(|l: Seq<char>| trim_spec(l))[k] by {
                        if k < done.len() {
                            assert(r@[k] == old_r[k]);
                            assert(strings_view(old_r)[k] == done.map_values(
                                |l: Seq<char>| trim_spec(l),
                            )[k]);
                        }
                    }
                }
                done = nd;
            }
            cur = Vec::new();
            assert(split_newlines(t) =~= done.push(cur@));
        } else {
            proof {
                lemma_split_newlines_nonempty(sv.take(i as int));
            }
            cur.push(c);
            assert(split_newlines(t) =~= done.push(cur@));
        }
        i += 1;
    }
    assert(sv.take(i as int) =~= sv);
    if cur.len() > 0 {
        let line = trimmed_string(cur.as_slice());
        let ghost old_r = r@;
        r.push(line);
        proof {
            let nd = done.push(cur@);
            assert(lines_spec(sv) == nd);
            assert forall|k: int| 0 <= k < nd.len() implies #[trigger] strings_view(r@)[k]
                == nd.map_values(|l: Seq<char>| trim_spec(l))[k] by {
                if k < done.len() {
                    assert(r@[k] == old_r[k]);
                    assert(strings_view(old_r)[k] == done.map_values(|l: Seq<char>| trim_spec(l))[k]);
                }
            }
            assert(strings_view(r@) =~= nd.map_values(|l: Seq<char>| trim_spec(l)));
        }
    } else {
        assert(lines_spec(sv) =~= done);
    }
    r
}


/// A final line ending is optional: a non-empty text that does not end in `\n` has the same
/// lines with a `\n` appended.
pub proof fn lemma_final_newline_optional(s: Seq<char>)
    requires
        s.len() > 0,
        s.last() != '\n',
    ensures
        lines_spec(s.push('\n')) == lines_spec(s),
        trimmed_lines(s.push('\n')) == trimmed_lines(s),
{
    let t = s.push('\n');
    assert(t.drop_last() =~= s);
    lemma_split_newlines_nonempty(s.drop_last());
    let p = split_newlines(s);
    assert(p.last().len() > 0);
    assert(split_newlines(t) == p.push(Seq::<char>::empty()));
    assert(split_newlines(t).drop_last() =~= p);
}

/// Every version read from `jabba-noshim ls` is free of surrounding whitespace.
pub proof fn lemma_installed_are_trimmed(s: Seq<char>, i: int)
    requires
        0 <= i < trimmed_lines(s).len(),
        trimmed_lines(s)[i].len() > 0,
    ensures
        !spec_is_whitespace(trimmed_lines(s)[i][0]),
        !spec_is_whitespace(trimmed_lines(s)[i].last()),
{
    lemma_trim_edges(lines_spec(s)[i]);
}


/// Splitting a concatenation: the pieces of `x`, the last one joined with the first piece of
/// `y`, then the other pieces of `y`.
proof fn lemma_split_append(x: Seq<char>, y: Seq<char>)
    ensures
        split_newlines(x + y) == split_newlines(x).drop_last() + seq![
            split_newlines(x).last() + split_newlines(y)[0],
        ] + split_newlines(y).skip(1),
    decreases y.len(),
{
    lemma_split_newlines_nonempty(x);
    lemma_split_newlines_nonempty(y);
    let d = split_newlines(x).drop_last();
    let l = split_newlines(x).last();
    if y.len() == 0 {
        assert(x + y =~= x);
        assert(split_newlines(y) =~= seq![Seq::<char>::empty()]);
        assert(l + split_newlines(y)[0] =~= l);
        assert(d + seq![l] + split_newlines(y).skip(1) =~= split_newlines(x));
    } else {
        let y1 = y.drop_last();
        let c = y.last();
        lemma_split_append(x, y1);
        lemma_split_newlines_nonempty(y1);
        assert((x + y).drop_last() =~= x + y1);
        assert((x + y).last() == c);
        let s1 = split_newlines(y1);
        let p1 = split_newlines(x + y1);
        let s = split_newlines(y);
        if c == '\n' {
            assert(s == s1.push(Seq::<char>::empty()));
            assert(s[0] == s1[0]);
            assert(s.skip(1) =~= s1.skip(1).push(Seq::<char>::empty()));
            assert(split_newlines(x + y) == p1.push(Seq::<char>::empty()));
            assert(d + seq![l + s[0]] + s.skip(1) =~= p1.push(Seq::<char>::empty()));
        } else {
            assert(s == s1.update(s1.len() - 1, s1.last().push(c)));
            assert(split_newlines(x + y) == p1.update(p1.len() - 1, p1.last().push(c)));
            if s1.len() == 1 {
                assert(s[0] == s1[0].push(c));
                assert(s.skip(1) =~= Seq::<Seq<char>>::empty());
                assert(s1.skip(1) =~= Seq::<Seq<char>>::empty());
                assert((l + s1[0]).push(c) =~= l + s1[0].push(c));
                assert(d + seq![l + s[0]] + s.skip(1) =~= p1.update(p1.len() - 1, p1.last().push(c)));
            } else {
                assert(s[0] == s1[0]);
                assert(s.skip(1) =~= s1.skip(1).update(s1.len() - 2, s1.last().push(c)));
                assert(d + seq![l + s[0]] + s.skip(1) =~= p1.update(p1.len() - 1, p1.last().push(c)));
            }
        }
    }
}

/// Lines compose: the lines of a text that goes on after a line ending are the lines up to
/// that ending followed by the lines of the rest, so a text of `n` terminated lines has `n`
/// lines.
pub proof fn lemma_lines_append(a: Seq<char>, b: Seq<char>)
    ensures
        lines_spec(a.push('\n') + b) == lines_spec(a.push('\n')) + lines_spec(b),
{
    let x = a.push('\n');
    assert(x.drop_last() =~= a);
    lemma_split_newlines_nonempty(a);
    lemma_split_newlines_nonempty(b);
    lemma_split_append(x, b);
    let sa = split_newlines(a);
    let sb = split_newlines(b);
    assert(split_newlines(x) == sa.push(Seq::<char>::empty()));
    assert(split_newlines(x).drop_last() =~= sa);
    assert(lines_spec(x) =~= sa);
    assert(Seq::<char>::empty() + sb[0] =~= sb[0]);
    assert(seq![sb[0]] + sb.skip(1) =~= sb);
    assert(split_newlines(x + b) =~= sa + sb);
    if sb.last().len() == 0 {
        assert((sa + sb).drop_last() =~= sa + sb.drop_last());
    }
}

proof fn lemma_split_no_newline(a: Seq<char>)
    requires
        forall|i: int| 0 <= i < a.len() ==> a[i] != '\n',
    ensures
        split_newlines(a) == seq![a],
    decreases a.len(),
{
    if a.len() == 0 {
        assert(a =~= Seq::<char>::empty());
        assert(split_newlines(a) =~= seq![a]);
    } else {
        let a1 = a.drop_last();
        assert forall|i: int| 0 <= i < a1.len() implies a1[i] != '\n' by {
            assert(a1[i] == a[i]);
        }
        lemma_split_no_newline(a1);
        assert(a.last() != '\n');
        assert(a1.push(a.last()) =~= a);
        assert(split_newlines(a) =~= seq![a]);
    }
}

/// A line without `\n` in it, ended by `\n` or not (but then not empty), reads as itself.
pub proof fn lemma_single_line(a: Seq<char>)
    requires
        forall|i: int| 0 <= i < a.len() ==> a[i] != '\n',
    ensures
        lines_spec(a.push('\n')) == seq![a],
        a.len() > 0 ==> lines_spec(a) == seq![a],
{
    lemma_split_no_newline(a);
    let x = a.push('\n');
    assert(x.drop_last() =~= a);
    assert(x.last() == '\n');
    let p = split_newlines(x);
    assert(p == seq![a].push(Seq::<char>::empty()));
    assert(p.last().len() == 0);
    assert(p.drop_last() =~= seq![a]);
    if a.len() > 0 {
        assert(split_newlines(a).last() == a);
    }
}

/// The versions read are one per line of the output, in order: as many as there are lines,
/// the `i`-th being the `i`-th line trimmed.
pub proof fn lemma_one_version_per_line(s: Seq<char>)
    ensures
        trimmed_lines(s).len() == lines_spec(s).len(),
        forall|i: int| 0 <= i < lines_spec(s).len() ==> #[trigger] trimmed_lines(s)[i] == trim_spec(
            lines_spec(s)[i],
        ),
{
}

} // verus!
