//! Target-path computation: turning a patch directory's path into the
//! target file it patches, and reading the format tag off the target's
//! extension.
//!
//! A patch directory is named after its target with a trailing `.d`; a
//! literal `dot-` marker in the name stands for a leading `.` in the target
//! file's name.  The directory path is re-rooted from the source tree under
//! the destination tree.
use crate::config::PatchError;
use vstd::prelude::*;
use vstd::string::StrSliceExecFns;
use vstd::string::StringExecFns;

verus! {

/// Whether a character counts as whitespace.
pub uninterp spec fn white(c: char) -> bool;

/// Relies on `char::is_whitespace`: whether the character has the Unicode
/// `White_Space` property — a property of the character alone.
#[verifier::external_body]
fn is_white(c: char) -> (r: bool)
    ensures
        r == white(c),
{
    c.is_whitespace()
}

/// The sequence without its leading whitespace.
pub open spec fn drop_ws_front(s: Seq<char>) -> Seq<char>
    decreases s.len(),
{
    if s.len() > 0 && white(s[0]) {
        drop_ws_front(s.subrange(1, s.len() as int))
    } else {
        s
    }
}

/// The sequence without its trailing whitespace.
pub open spec fn drop_ws_back(s: Seq<char>) -> Seq<char>
    decreases s.len(),
{
    if s.len() > 0 && white(s[s.len() - 1]) {
        drop_ws_back(s.subrange(0, s.len() - 1))
    } else {
        s
    }
}

/// The sequence without its surrounding whitespace.
pub open spec fn trim_of(s: Seq<char>) -> Seq<char> {
    drop_ws_back(drop_ws_front(s))
}

/// The sequence with every trailing `.d` removed.
pub open spec fn strip_dot_d(s: Seq<char>) -> Seq<char>
    decreases s.len(),
{
    if s.len() >= 2 && s[s.len() - 2] == '.' && s[s.len() - 1] == 'd' {
        strip_dot_d(s.subrange(0, s.len() - 2))
    } else {
        s
    }
}

/// Whether the marker `dot-` stands at position `i` of `s`.
pub open spec fn dot_marker_at(s: Seq<char>, i: int) -> bool {
    &&& i + 4 <= s.len()
    &&& s[i] == 'd'
    &&& s[i + 1] == 'o'
    &&& s[i + 2] == 't'
    &&& s[i + 3] == '-'
}

/// The sequence with every `dot-` marker rewritten to `.`, scanning left
/// to right without overlap.
pub open spec fn replace_dot(s: Seq<char>) -> Seq<char>
    decreases s.len(),
{
    if s.len() == 0 {
        s
    } else if dot_marker_at(s, 0) {
        seq!['.'] + replace_dot(s.subrange(4, s.len() as int))
    } else {
        seq![s[0]] + replace_dot(s.subrange(1, s.len() as int))
    }
}

/// The target name of a patch directory path: surrounding whitespace
/// trimmed, every trailing `.d` stripped, every `dot-` marker rewritten.
pub open spec fn canonical_of(s: Seq<char>) -> Seq<char> {
    replace_dot(strip_dot_d(trim_of(s)))
}

/// Computes the target name of a patch directory path.
#[verifier::loop_isolation(false)]
pub fn canonicalize(directory: &str) -> (r: String)
    ensures
        r@ == canonical_of(directory@),
{
    let ghost sv = directory@;
    let n = directory.unicode_len();

    let mut a: usize = 0;
    proof {
        assert(sv.subrange(0, n as int) =~= sv);
    }
    while a < n && is_white(directory.get_char(a))
        invariant
            0 <= a <= n,
            drop_ws_front(sv) == drop_ws_front(sv.subrange(a as int, n as int)),
        decreases n - a,
    {
        proof {
            assert(sv.subrange(a as int, n as int).subrange(1, n - a) =~= sv.subrange(
                a as int + 1,
                n as int,
            ));
        }
        a = a + 1;
    }
    proof {
        assert(drop_ws_front(sv) == sv.subrange(a as int, n as int));
    }

    let mut b: usize = n;
    while b > a && is_white(directory.get_char(b - 1))
        invariant
            a <= b <= n,
            drop_ws_back(sv.subrange(a as int, n as int)) == drop_ws_back(
                sv.subrange(a as int, b as int),
            ),
        decreases b,
    {
        proof {
            assert(sv.subrange(a as int, b as int).subrange(0, b - a - 1) =~= sv.subrange(
                a as int,
                b as int - 1,
            ));
        }
        b = b - 1;
    }
    proof {
        assert(trim_of(sv) == sv.subrange(a as int, b as int));
    }

    let mut c: usize = b;
    while c - a >= 2 && directory.get_char(c - 2) == '.' && directory.get_char(c - 1) == 'd'
        invariant
            a <= c <= b,
            strip_dot_d(sv.subrange(a as int, b as int)) == strip_dot_d(
                sv.subrange(a as int, c as int),
            ),
        decreases c,
    {
        proof {
            assert(sv.subrange(a as int, c as int).subrange(0, c - a - 2) =~= sv.subrange(
                a as int,
                c as int - 2,
            ));
        }
        c = c - 2;
    }
    proof {
        assert(strip_dot_d(trim_of(sv)) == sv.subrange(a as int, c as int));
    }

    let mut out = String::new();
    let mut i: usize = a;
    while i < c
        invariant
            a <= i <= c,
            out@ + replace_dot(sv.subrange(i as int, c as int)) == replace_dot(
                sv.subrange(a as int, c as int),
            ),
        decreases c - i,
    {
        let ghost out_b = out@;
        let ghost tail = sv.subrange(i as int, c as int);
        if c - i >= 4 && directory.get_char(i) == 'd' && directory.get_char(i + 1) == 'o'
            && directory.get_char(i + 2) == 't' && directory.get_char(i + 3) == '-' {
            out.append(".");
            proof {
                reveal_strlit(".");
                assert("."@ =~= seq!['.']);
                assert(dot_marker_at(tail, 0));
                assert(tail.subrange(4, tail.len() as int) =~= sv.subrange(
                    i as int + 4,
                    c as int,
                ));
                assert(out@ + replace_dot(sv.subrange(i as int + 4, c as int)) =~= out_b + (
                seq!['.'] + replace_dot(sv.subrange(i as int + 4, c as int))));
            }
            i = i + 4;
        } else {
            let piece = directory.substring_char(i, i + 1);
            out.append(piece);
            proof {
                assert(!dot_marker_at(tail, 0));
                assert(piece@ =~= seq![sv[i as int]]);
                assert(tail.subrange(1, tail.len() as int) =~= sv.subrange(i as int + 1, c as int));
                assert(out@ + replace_dot(sv.subrange(i as int + 1, c as int)) =~= out_b + (seq![
                    sv[i as int],
                ] + replace_dot(sv.subrange(i as int + 1, c as int))));
            }
            i = i + 1;
        }
    }
    proof {
        assert(sv.subrange(i as int, c as int) =~= Seq::<char>::empty());
        assert(out@ + Seq::<char>::empty() =~= out@);
    }
    out
}

/// Where `path` lies under `from` — equal to it, or extending it past a
/// `/` separator — the rest after the separator re-roots under `to`.
pub open spec fn target_of(from: Seq<char>, to: Seq<char>, path: Seq<char>) -> Option<Seq<char>> {
    if path == from {
        Some(to)
    } else if path.len() > from.len() && path.subrange(0, from.len() as int) == from && path[from.len() as int]
        == '/' {
        Some(to + seq!['/'] + path.subrange(from.len() as int + 1, path.len() as int))
    } else {
        None
    }
}

/// Re-roots `path` from the source root `from` under the destination root
/// `to`; a path that does not lie under `from` is rejected.
#[verifier::loop_isolation(false)]
pub fn replace_prefix(from: &str, to: &str, path: &str) -> (r: Result<String, PatchError>)
    ensures
        match r {
            Ok(s) => target_of(from@, to@, path@) == Some(s@),
            Err(e) => e == PatchError::StripPrefixFailure && target_of(from@, to@, path@)
                is None,
        },
{
    let np = path.unicode_len();
    let nf = from.unicode_len();
    if np < nf {
        return Err(PatchError::StripPrefixFailure);
    }
    let mut j: usize = 0;
    while j < nf
        invariant
            0 <= j <= nf <= np,
            forall|q: int| 0 <= q < j ==> path@[q] == from@[q],
        decreases nf - j,
    {
        if path.get_char(j) != from.get_char(j) {
            proof {
                assert(path@ != from@);
                assert(path@.subrange(0, from@.len() as int) != from@) by {
                    assert(path@.subrange(0, from@.len() as int)[j as int] == path@[j as int]);
                }
            }
            return Err(PatchError::StripPrefixFailure);
        }
        j = j + 1;
    }
    if np == nf {
        proof {
            assert(path@ =~= from@);
        }
        return Ok(to.to_owned());
    }
    proof {
        assert(path@.subrange(0, from@.len() as int) =~= from@);
        assert(path@ != from@);
    }
    if path.get_char(nf) == '/' {
        let mut out = to.to_owned();
        out.append("/");
        let rest = path.substring_char(nf + 1, np);
        out.append(rest);
        proof {
            reveal_strlit("/");
            assert("/"@ =~= seq!['/']);
            assert(out@ =~= to@ + seq!['/'] + path@.subrange(
                from@.len() as int + 1,
                path@.len() as int,
            ));
        }
        Ok(out)
    } else {
        Err(PatchError::StripPrefixFailure)
    }
}

/// The index of the last occurrence of `c` in `s`, or `-1` when `c` does
/// not occur.
pub open spec fn last_index_of(s: Seq<char>, c: char) -> int
    decreases s.len(),
{
    if s.len() == 0 {
        -1
    } else if s[s.len() - 1] == c {
        s.len() - 1
    } else {
        last_index_of(s.subrange(0, s.len() - 1), c)
    }
}

/// Finds the last occurrence of `c` in `s`.
#[verifier::loop_isolation(false)]
fn rfind_char(s: &str, c: char) -> (r: Option<usize>)
    ensures
        match r {
            Some(i) => last_index_of(s@, c) == i as int && i < s@.len(),
            None => last_index_of(s@, c) == -1,
        },
{
    let n = s.unicode_len();
    let mut k: usize = n;
    proof {
        assert(s@.subrange(0, n as int) =~= s@);
    }
    while k > 0
        invariant
            0 <= k <= n,
            last_index_of(s@, c) == last_index_of(s@.subrange(0, k as int), c),
        decreases k,
    {
        if s.get_char(k - 1) == c {
            return Some(k - 1);
        }
        proof {
            assert(s@.subrange(0, k as int).subrange(0, k - 1) =~= s@.subrange(0, k as int - 1));
        }
        k = k - 1;
    }
    proof {
        assert(s@.subrange(0, 0) =~= Seq::<char>::empty());
    }
    None
}

/// The format tag of a target path: the part of its last `/`-separated
/// component after the component's last `.`, where a `.` at the component's
/// first position does not begin an extension.
pub open spec fn extension_of(s: Seq<char>) -> Option<Seq<char>> {
    let component_start = last_index_of(s, '/') + 1;
    let dot = last_index_of(s, '.');
    if dot > component_start {
        Some(s.subrange(dot + 1, s.len() as int))
    } else {
        None
    }
}

/// Reads the format tag off the target path's extension; a target with no
/// extension has no tag and is treated as plain text.
pub fn detect(target: &str) -> (r: Option<String>)
    ensures
        match r {
            Some(e) => extension_of(target@) == Some(e@),
            None => extension_of(target@) is None,
        },
{
    let n = target.unicode_len();
    let sep = rfind_char(target, '/');
    let dot = rfind_char(target, '.');
    let component_start: usize = match sep {
        Some(i) => i + 1,
        None => 0,
    };
    match dot {
        Some(dp) => {
            if dp > component_start {
                Some(target.substring_char(dp + 1, n).to_owned())
            } else {
                None
            }
        },
        None => None,
    }
}

} // verus!
