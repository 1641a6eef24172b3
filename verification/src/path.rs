//! Paths as character sequences, with the Unix semantics of `std::path`
//! for the operations the library relies on.
use vstd::prelude::*;
use crate::text::{push_all, slice_vec};

verus! {

/// `base.join(p)`: an absolute `p` replaces `base`; otherwise a `/` separates
/// them unless `base` is empty or already ends with one.
pub open spec fn path_join(base: Seq<char>, p: Seq<char>) -> Seq<char> {
    if p.len() > 0 && p[0] == '/' {
        p
    } else if base.len() > 0 && base.last() != '/' {
        base + seq!['/'] + p
    } else {
        base + p
    }
}

pub fn join_path(base: &[char], p: &[char]) -> (r: Vec<char>)
    ensures
        r@ == path_join(base@, p@),
{
    if p.len() > 0 && p[0] == '/' {
        return slice_vec(p, 0, p.len());
    }
    let mut out = slice_vec(base, 0, base.len());
    if base.len() > 0 && base[base.len() - 1] != '/' {
        out.push('/');
    }
    push_all(&mut out, p);
    proof {
        assert(base@.subrange(0, base@.len() as int) =~= base@);
    }
    out
}

/// `s` without its trailing `/` characters.
pub open spec fn strip_trailing_slashes(s: Seq<char>) -> Seq<char>
    decreases s.len(),
{
    if s.len() > 0 && s.last() == '/' {
        strip_trailing_slashes(s.drop_last())
    } else {
        s
    }
}

/// Index just past the last `/` in `s` (0 when there is none).
pub open spec fn last_segment_start(s: Seq<char>) -> int
    decreases s.len(),
{
    if s.len() == 0 {
        0
    } else if s.last() == '/' {
        s.len() as int
    } else {
        last_segment_start(s.drop_last())
    }
}

/// `Path::file_name`: the final component when it is a normal one.
pub open spec fn file_name(s: Seq<char>) -> Option<Seq<char>>
    decreases s.len(),
{
    let t = strip_trailing_slashes(s);
    let seg = t.skip(last_segment_start(t));
    if seg.len() == 0 {
        None
    } else if seg == seq!['.'] {
        proof {
            lemma_strip_len(s);
        }
        file_name(t.drop_last())
    } else if seg == seq!['.', '.'] {
        None
    } else {
        Some(seg)
    }
}

pub proof fn lemma_strip_len(s: Seq<char>)
    ensures
        strip_trailing_slashes(s).len() <= s.len(),
        strip_trailing_slashes(s) == s.take(strip_trailing_slashes(s).len() as int),
        strip_trailing_slashes(s).len() == 0 || strip_trailing_slashes(s).last() != '/',
    decreases s.len(),
{
    if s.len() > 0 && s.last() == '/' {
        lemma_strip_len(s.drop_last());
        assert(s.drop_last().take(strip_trailing_slashes(s).len() as int) =~= s.take(
            strip_trailing_slashes(s).len() as int,
        ));
    } else {
        assert(s.take(s.len() as int) =~= s);
    }
}

proof fn lemma_last_segment(s: Seq<char>)
    ensures
        0 <= last_segment_start(s) <= s.len(),
        forall|j: int| last_segment_start(s) <= j < s.len() ==> s[j] != '/',
        last_segment_start(s) > 0 ==> s[last_segment_start(s) - 1] == '/',
    decreases s.len(),
{
    if s.len() > 0 && s.last() != '/' {
        lemma_last_segment(s.drop_last());
        assert forall|j: int| last_segment_start(s) <= j < s.len() implies s[j] != '/' by {
            if j < s.len() - 1 {
                assert(s.drop_last()[j] == s[j]);
            }
        }
    }
}

fn strip_trailing_slashes_vec(s: &[char]) -> (r: usize)
    ensures
        r <= s@.len(),
        s@.take(r as int) == strip_trailing_slashes(s@),
{
    let mut k = s.len();
    assert(s@.take(k as int) =~= s@);
    while k > 0 && s[k - 1] == '/'
        invariant
            k <= s@.len(),
            strip_trailing_slashes(s@) == strip_trailing_slashes(s@.take(k as int)),
        decreases k,
    {
        assert(s@.take(k as int).drop_last() =~= s@.take(k - 1));
        k -= 1;
    }
    proof {
        assert(s@.take(s@.len() as int) =~= s@);
    }
    k
}

fn last_segment_start_vec(s: &[char], len: usize) -> (r: usize)
    requires
        len <= s@.len(),
    ensures
        r == last_segment_start(s@.take(len as int)),
{
    let mut k = len;
    while k > 0 && s[k - 1] != '/'
        invariant
            k <= len <= s@.len(),
            last_segment_start(s@.take(len as int)) == last_segment_start(s@.take(k as int)),
        decreases k,
    {
        assert(s@.take(k as int).drop_last() =~= s@.take(k - 1));
        k -= 1;
    }
    k
}

/// `Path::file_name`.
pub fn file_name_vec(s: &[char]) -> (r: Option<Vec<char>>)
    ensures
        match r {
            Some(v) => file_name(s@) == Some(v@),
            None => file_name(s@) is None,
        },
{
    let mut cur = slice_vec(s, 0, s.len());
    assert(cur@ =~= s@);
    loop
        invariant
            file_name(s@) == file_name(cur@),
        decreases cur@.len(),
    {
        let t = strip_trailing_slashes_vec(&cur);
        let start = last_segment_start_vec(&cur, t);
        proof {
            lemma_last_segment(cur@.take(t as int));
        }
        let seg = slice_vec(&cur, start, t);
        proof {
            assert(seg@ =~= strip_trailing_slashes(cur@).skip(last_segment_start(strip_trailing_slashes(cur@))));
        }
        if seg.len() == 0 {
            return None;
        } else if seg.len() == 1 && seg[0] == '.' {
            assert(seg@ =~= seq!['.']);
            proof {
                lemma_strip_len(cur@);
            }
            let next = slice_vec(&cur, 0, t - 1);
            assert(next@ =~= strip_trailing_slashes(cur@).drop_last());
            cur = next;
        } else if seg.len() == 2 && seg[0] == '.' && seg[1] == '.' {
            assert(seg@ =~= seq!['.', '.']);
            return None;
        } else {
            assert(seg@ != seq!['.']);
            assert(seg@ != seq!['.', '.']);
            return Some(seg);
        }
    }
}

/// Index of the last `.` in `s`, if any.
pub open spec fn last_dot(s: Seq<char>) -> Option<int>
    decreases s.len(),
{
    if s.len() == 0 {
        None
    } else if s.last() == '.' {
        Some(s.len() - 1)
    } else {
        last_dot(s.drop_last())
    }
}

/// The `(stem, extension)` split of a file name, as `Path::file_stem` and
/// `Path::extension` make it.
pub open spec fn split_at_dot(name: Seq<char>) -> (Seq<char>, Option<Seq<char>>) {
    if name == seq!['.', '.'] {
        (name, None)
    } else {
        match last_dot(name) {
            None => (name, None),
            Some(i) => if i == 0 {
                (name, None)
            } else {
                (name.take(i), Some(name.skip(i + 1)))
            },
        }
    }
}

/// `Path::extension`.
pub open spec fn extension(p: Seq<char>) -> Option<Seq<char>> {
    match file_name(p) {
        None => None,
        Some(n) => split_at_dot(n).1,
    }
}

/// `Path::file_stem`.
pub open spec fn file_stem(p: Seq<char>) -> Option<Seq<char>> {
    match file_name(p) {
        None => None,
        Some(n) => Some(split_at_dot(n).0),
    }
}

proof fn lemma_last_dot(s: Seq<char>)
    ensures
        last_dot(s) matches Some(i) ==> 0 <= i < s.len(),
    decreases s.len(),
{
    if s.len() > 0 && s.last() != '.' {
        lemma_last_dot(s.drop_last());
    }
}

fn last_dot_vec(s: &[char]) -> (r: Option<usize>)
    ensures
        match r {
            Some(i) => last_dot(s@) == Some(i as int) && i < s@.len(),
            None => last_dot(s@) is None,
        },
{
    let mut k = s.len();
    assert(s@.take(k as int) =~= s@);
    while k > 0
        invariant
            k <= s@.len(),
            last_dot(s@) == last_dot(s@.take(k as int)),
        decreases k,
    {
        if s[k - 1] == '.' {
            assert(last_dot(s@.take(k as int)) == Some(k - 1));
            return Some(k - 1);
        }
        assert(s@.take(k as int).drop_last() =~= s@.take(k - 1));
        k -= 1;
    }
    None
}

fn split_at_dot_vec(name: &[char]) -> (r: (Vec<char>, Option<Vec<char>>))
    ensures
        r.0@ == split_at_dot(name@).0,
        match r.1 {
            Some(e) => split_at_dot(name@).1 == Some(e@),
            None => split_at_dot(name@).1 is None,
        },
{
    let whole = slice_vec(name, 0, name.len());
    assert(whole@ =~= name@);
    if name.len() == 2 && name[0] == '.' && name[1] == '.' {
        assert(name@ =~= seq!['.', '.']);
        return (whole, None);
    }
    assert(name@ != seq!['.', '.']);
    match last_dot_vec(name) {
        None => (whole, None),
        Some(i) => {
            if i == 0 {
                (whole, None)
            } else {
                let stem = slice_vec(name, 0, i);
                let ext = slice_vec(name, i + 1, name.len());
                assert(stem@ =~= name@.take(i as int));
                assert(ext@ =~= name@.skip(i + 1));
                (stem, Some(ext))
            }
        },
    }
}

/// `Path::extension`.
pub fn extension_vec(p: &[char]) -> (r: Option<Vec<char>>)
    ensures
        match r {
            Some(e) => extension(p@) == Some(e@),
            None => extension(p@) is None,
        },
{
    match file_name_vec(p) {
        None => None,
        Some(n) => split_at_dot_vec(&n).1,
    }
}

/// `Path::file_stem`.
pub fn file_stem_vec(p: &[char]) -> (r: Option<Vec<char>>)
    ensures
        match r {
            Some(e) => file_stem(p@) == Some(e@),
            None => file_stem(p@) is None,
        },
{
    match file_name_vec(p) {
        None => None,
        Some(n) => Some(split_at_dot_vec(&n).0),
    }
}

} // verus!
