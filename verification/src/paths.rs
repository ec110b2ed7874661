//! `/`-separated paths held as strings, with the meaning that `std::path` gives them on Unix.
use vstd::prelude::*;

use crate::text::{chars_of, push_chars, slice_chars, string_from_chars};

verus! {

/// Whether the path starts at the root directory.
pub open spec fn has_root(s: Seq<char>) -> bool {
    s.len() > 0 && s[0] == '/'
}

/// Whether a relative path starts with a `.` component (which `Path` keeps).
pub open spec fn has_cur_dir(s: Seq<char>) -> bool {
    !has_root(s) && s.len() > 0 && s[0] == '.' && (s.len() == 1 || s[1] == '/')
}

/// Length of the part before the first ordinary component (the root or a leading `.`).
pub open spec fn body_start(s: Seq<char>) -> nat {
    if has_root(s) || has_cur_dir(s) {
        1
    } else {
        0
    }
}

/// Index of the last `/` at or after `start`, if any.
pub open spec fn last_sep_from(s: Seq<char>, start: nat) -> Option<int>
    decreases s.len(),
{
    if s.len() == 0 || s.len() <= start {
        None
    } else if s.last() == '/' {
        Some(s.len() - 1)
    } else {
        last_sep_from(s.drop_last(), start)
    }
}

/// The path before its last component (the component's separator removed too).
pub open spec fn before_last_component(s: Seq<char>, start: nat) -> Seq<char> {
    match last_sep_from(s, start) {
        Some(k) => s.take(k),
        None => s.take(start as int),
    }
}

/// The last component of the body, possibly empty or `.`.
pub open spec fn last_component(s: Seq<char>, start: nat) -> Seq<char> {
    match last_sep_from(s, start) {
        Some(k) => s.skip(k + 1),
        None => s.skip(start as int),
    }
}

/// A component that `Path` reports (empty components and inner `.` are skipped).
pub open spec fn is_significant(c: Seq<char>) -> bool {
    c.len() > 0 && c != seq!['.']
}

/// `s` with trailing empty and `.` components removed.
pub open spec fn strip_insignificant(s: Seq<char>, start: nat) -> Seq<char>
    decreases s.len(),
{
    if s.len() <= start {
        s
    } else if is_significant(last_component(s, start)) {
        s
    } else {
        proof {
            lemma_last_sep_from(s, start);
        }
        strip_insignificant(before_last_component(s, start), start)
    }
}

/// `Path::parent` on Unix: the path without its final component, or `None` when the
/// path is empty or ends in the root.
pub open spec fn path_parent(s: Seq<char>) -> Option<Seq<char>> {
    let start = body_start(s);
    let t = strip_insignificant(s, start);
    if t.len() > start {
        Some(strip_insignificant(before_last_component(t, start), start))
    } else if has_cur_dir(s) {
        Some(Seq::empty())
    } else {
        None
    }
}

/// `Path::join` on Unix: an absolute `part` replaces `base`; otherwise a `/` is put
/// between them unless `base` is empty or already ends with one.
pub open spec fn path_join(base: Seq<char>, part: Seq<char>) -> Seq<char> {
    if has_root(part) {
        part
    } else if base.len() > 0 && base.last() != '/' {
        base + seq!['/'] + part
    } else {
        base + part
    }
}

pub proof fn lemma_last_sep_from(s: Seq<char>, start: nat)
    ensures
        last_sep_from(s, start) matches Some(k) ==> start <= k < s.len() && s[k] == '/' && (
        forall|j: int| k < j < s.len() ==> s[j] != '/'),
        last_sep_from(s, start) is None ==> forall|j: int|
            start <= j < s.len() ==> s[j] != '/',
    decreases s.len(),
{
    if s.len() > 0 && s.len() > start && s.last() != '/' {
        lemma_last_sep_from(s.drop_last(), start);
        if let Some(k) = last_sep_from(s.drop_last(), start) {
            assert forall|j: int| k < j < s.len() implies s[j] != '/' by {
                if j < s.len() - 1 {
                    assert(s[j] == s.drop_last()[j]);
                }
            }
        } else {
            assert forall|j: int| start <= j < s.len() implies s[j] != '/' by {
                if j < s.len() - 1 {
                    assert(s[j] == s.drop_last()[j]);
                }
            }
        }
    }
}

/// Characterizes `last_sep_from` by its defining facts.
proof fn lemma_last_sep_from_unique(s: Seq<char>, start: nat, r: Option<int>)
    requires
        r matches Some(k) ==> start <= k < s.len() && s[k] == '/' && (forall|j: int|
            k < j < s.len() ==> s[j] != '/'),
        r is None ==> forall|j: int| start <= j < s.len() ==> s[j] != '/',
    ensures
        last_sep_from(s, start) == r,
{
    lemma_last_sep_from(s, start);
    match (last_sep_from(s, start), r) {
        (Some(a), Some(b)) => {
            if a < b {
                assert(s[b] != '/');
            } else if b < a {
                assert(s[a] != '/');
            }
        },
        (Some(a), None) => {
            assert(s[a] != '/');
        },
        (None, Some(b)) => {
            assert(s[b] != '/');
        },
        (None, None) => {},
    }
}

fn body_start_exec(s: &[char]) -> (n: usize)
    ensures
        n == body_start(s@),
{
    if s.len() > 0 && s[0] == '/' {
        1
    } else if s.len() > 0 && s[0] == '.' && (s.len() == 1 || s[1] == '/') {
        1
    } else {
        0
    }
}

fn last_sep_exec(s: &[char], len: usize, start: usize) -> (res: Option<usize>)
    requires
        len <= s.len(),
    ensures
        match res {
            Some(k) => last_sep_from(s@.take(len as int), start as nat) == Some(k as int),
            None => last_sep_from(s@.take(len as int), start as nat) is None,
        },
{
    let ghost t = s@.take(len as int);
    let mut i = len;
    while i > start
        invariant
            i <= len <= s.len(),
            t == s@.take(len as int),
            forall|j: int| i <= j < len && j >= start ==> t[j] != '/',
        decreases i,
    {
        if s[i - 1] == '/' {
            proof {
                lemma_last_sep_from_unique(t, start as nat, Some((i - 1) as int));
            }
            return Some(i - 1);
        }
        i = i - 1;
    }
    proof {
        lemma_last_sep_from_unique(t, start as nat, None);
    }
    None
}

/// Length of `strip_insignificant(s.take(len), start)`.
fn strip_insignificant_exec(s: &[char], len: usize, start: usize) -> (n: usize)
    requires
        start <= len <= s.len(),
    ensures
        start <= n <= len,
        strip_insignificant(s@.take(len as int), start as nat) == s@.take(n as int),
    decreases len,
{
    if len <= start {
        return len;
    }
    let ghost t = s@.take(len as int);
    let sep = last_sep_exec(s, len, start);
    proof {
        lemma_last_sep_from(t, start as nat);
    }
    let (comp_start, cut) = match sep {
        Some(k) => (k + 1, k),
        None => (start, start),
    };
    let comp_len = len - comp_start;
    let significant = comp_len > 0 && !(comp_len == 1 && s[comp_start] == '.');
    assert(last_component(t, start as nat) =~= s@.subrange(comp_start as int, len as int));
    if significant {
        assert(is_significant(last_component(t, start as nat))) by {
            if last_component(t, start as nat) == seq!['.'] {
                assert(last_component(t, start as nat)[0] == s@[comp_start as int]);
            }
        }
        len
    } else {
        assert(!is_significant(last_component(t, start as nat))) by {
            if comp_len == 1 {
                assert(last_component(t, start as nat) =~= seq!['.']);
            }
        }
        assert(before_last_component(t, start as nat) =~= s@.take(cut as int));
        strip_insignificant_exec(s, cut, start)
    }
}

/// `Path::new(s).parent()`, as a string.
pub fn parent_of(s: &str) -> (res: Option<String>)
    ensures
        match res {
            Some(p) => path_parent(s@) == Some(p@),
            None => path_parent(s@) is None,
        },
{
    let cs = chars_of(s);
    let start = body_start_exec(&cs);
    assert(cs@.take(cs.len() as int) =~= cs@);
    let tl = strip_insignificant_exec(&cs, cs.len(), start);
    if tl > start {
        let ghost t = cs@.take(tl as int);
        let sep = last_sep_exec(&cs, tl, start);
        let cut = match sep {
            Some(k) => k,
            None => start,
        };
        proof {
            lemma_last_sep_from(t, start as nat);
        }
        assert(before_last_component(t, start as nat) =~= cs@.take(cut as int));
        let n = strip_insignificant_exec(&cs, cut, start);
        let p = slice_chars(&cs, 0, n);
        assert(p@ =~= cs@.take(n as int));
        Some(string_from_chars(&p))
    } else if !(cs.len() > 0 && cs[0] == '/') && cs.len() > 0 && cs[0] == '.' && (cs.len() == 1
        || cs[1] == '/') {
        let e: Vec<char> = Vec::new();
        assert(e@ =~= Seq::<char>::empty());
        Some(string_from_chars(&e))
    } else {
        None
    }
}

/// `Path::new(base).join(part)`, as characters.
pub fn join_chars(base: &[char], part: &[char]) -> (res: Vec<char>)
    ensures
        res@ == path_join(base@, part@),
{
    let mut out: Vec<char> = Vec::new();
    if part.len() > 0 && part[0] == '/' {
        push_chars(&mut out, part);
        assert(out@ =~= part@);
        return out;
    }
    push_chars(&mut out, base);
    if base.len() > 0 && base[base.len() - 1] != '/' {
        out.push('/');
    }
    push_chars(&mut out, part);
    assert(out@ =~= path_join(base@, part@));
    out
}

/// `Path::new(base).join(part)`.
pub fn join_path(base: &str, part: &str) -> (res: String)
    ensures
        res@ == path_join(base@, part@),
{
    let b = chars_of(base);
    let p = chars_of(part);
    let j = join_chars(&b, &p);
    string_from_chars(&j)
}

/// `Path::new(p).exists()`. What it returns depends on the file system at the time of
/// the call, so nothing is stated of it.
#[verifier::external_body]
pub(crate) fn path_exists(p: &str) -> bool {
    std::path::Path::new(p).exists()
}

} // verus!
