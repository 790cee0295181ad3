//! The association key of a path: its extension, separator included, taken
//! from the final component.
use vstd::prelude::*;

verus! {

/// Both separators that the platform accepts in a path.
pub open spec fn is_separator(c: char) -> bool {
    c == '/' || c == '\\'
}

/// Index just past the last separator of `p`, or 0 when it has none.
pub open spec fn component_start(p: Seq<char>) -> int
    decreases p.len(),
{
    if p.len() == 0 {
        0
    } else if is_separator(p.last()) {
        p.len() as int
    } else {
        component_start(p.drop_last())
    }
}

/// The final named component of `p`: empty components (repeated or trailing
/// separators) and `.` components are passed over; the empty sequence when
/// nothing is left.
pub open spec fn file_name(p: Seq<char>) -> Seq<char>
    decreases p.len(),
{
    let s = component_start(p);
    let last = p.subrange(s, p.len() as int);
    if p.len() == 0 {
        Seq::empty()
    } else if last.len() == 0 || last == seq!['.'] {
        if s <= 0 || s > p.len() {
            Seq::empty()
        } else {
            file_name(p.subrange(0, s - 1))
        }
    } else {
        last
    }
}

/// Index of the last `.` of `n`, or -1 when it has none.
pub open spec fn last_dot(n: Seq<char>) -> int
    decreases n.len(),
{
    if n.len() == 0 {
        -1
    } else if n.last() == '.' {
        n.len() - 1
    } else {
        last_dot(n.drop_last())
    }
}

/// The extension of `p`, without its dot: what follows the last dot of the
/// file name, unless that dot is the name's first character or the name is
/// `..`.
pub open spec fn extension_of(p: Seq<char>) -> Option<Seq<char>> {
    let n = file_name(p);
    let d = last_dot(n);
    if n == seq!['.', '.'] || d <= 0 {
        None
    } else {
        Some(n.subrange(d + 1, n.len() as int))
    }
}

/// The key under which handlers are registered for `p`: its extension with
/// a leading dot, or nothing when `p` has no extension.
pub open spec fn association_key_of(p: Seq<char>) -> Option<Seq<char>> {
    match extension_of(p) {
        Some(e) => Some(seq!['.'] + e),
        None => None,
    }
}

proof fn lemma_component_start_bounds(p: Seq<char>)
    ensures
        0 <= component_start(p) <= p.len(),
    decreases p.len(),
{
    if p.len() > 0 && !is_separator(p.last()) {
        lemma_component_start_bounds(p.drop_last());
    }
}

proof fn lemma_component_start_of_prefix(p: Seq<char>, end: int, s: int)
    requires
        0 <= s <= end <= p.len(),
        s == 0 || is_separator(p[s - 1]),
        forall|i: int| s <= i < end ==> !is_separator(#[trigger] p[i]),
    ensures
        component_start(p.subrange(0, end)) == s,
    decreases end - s,
{
    lemma_component_start_bounds(p.subrange(0, end));
    let q = p.subrange(0, end);
    if end > s {
        assert(q.drop_last() =~= p.subrange(0, end - 1));
        lemma_component_start_of_prefix(p, end - 1, s);
    } else if s > 0 {
        assert(q.last() == p[s - 1]);
    }
}

proof fn lemma_last_dot_at(n: Seq<char>, k: int)
    requires
        0 <= k <= n.len(),
        forall|i: int| k <= i < n.len() ==> #[trigger] n[i] != '.',
        k == 0 || n[k - 1] == '.',
    ensures
        last_dot(n) == k - 1,
    decreases n.len(),
{
    if n.len() > k {
        lemma_last_dot_at(n.drop_last(), k);
    }
}

fn is_separator_char(c: char) -> (r: bool)
    ensures
        r == is_separator(c),
{
    c == '/' || c == '\\'
}

/// The association key of `path`: `.` followed by its extension, or `None`
/// when the path has no extension.
pub fn association_key(path: &str) -> (r: Option<String>)
    ensures
        match r {
            Some(k) => association_key_of(path@) == Some(k@),
            None => association_key_of(path@) is None,
        },
{
    let ghost p = path@;
    let len = path.unicode_len();
    let mut end: usize = len;
    let mut start: usize = 0;
    assert(p.subrange(0, len as int) =~= p);
    loop
        invariant
            len == p.len(),
            path@ == p,
            end <= len,
            file_name(p.subrange(0, end as int)) == file_name(p),
        ensures
            start < end <= len,
            file_name(p) == p.subrange(start as int, end as int),
        decreases end,
    {
        let mut s: usize = end;
        while s > 0 && !is_separator_char(path.get_char(s - 1))
            invariant
                s <= end <= len,
                len == p.len(),
                path@ == p,
                forall|i: int| s <= i < end ==> !is_separator(#[trigger] p[i]),
            decreases s,
        {
            s = s - 1;
        }
        let ghost q = p.subrange(0, end as int);
        proof {
            lemma_component_start_of_prefix(p, end as int, s as int);
            assert(q.subrange(s as int, q.len() as int) =~= p.subrange(s as int, end as int));
        }
        if s == end || (end - s == 1 && path.get_char(s) == '.') {
            proof {
                if end - s == 1 {
                    assert(p.subrange(s as int, end as int) =~= seq!['.']);
                }
            }
            if s == 0 {
                return None;
            }
            proof {
                assert(q.subrange(0, s - 1) =~= p.subrange(0, s - 1));
            }
            end = s - 1;
        } else {
            proof {
                if p.subrange(s as int, end as int) == seq!['.'] {
                    assert(p.subrange(s as int, end as int)[0] == p[s as int]);
                }
                assert(file_name(q) == p.subrange(s as int, end as int));
            }
            start = s;
            break;
        }
    }
    let ghost n = p.subrange(start as int, end as int);
    if end - start == 2 && path.get_char(start) == '.' && path.get_char(start + 1) == '.' {
        assert(n =~= seq!['.', '.']);
        return None;
    }
    assert(n != seq!['.', '.']) by {
        if n == seq!['.', '.'] {
            assert(n[0] == p[start as int] && n[1] == p[start + 1]);
        }
    }
    let mut k: usize = end;
    while k > start && path.get_char(k - 1) != '.'
        invariant
            start <= k <= end <= len,
            len == p.len(),
            path@ == p,
            forall|i: int| k <= i < end ==> #[trigger] p[i] != '.',
        decreases k,
    {
        k = k - 1;
    }
    proof {
        assert forall|i: int| k - start <= i < n.len() implies #[trigger] n[i] != '.' by {
            assert(n[i] == p[start + i]);
        }
        if k > start {
            assert(n[k - start - 1] == p[k - 1]);
        }
        lemma_last_dot_at(n, k - start);
    }
    if k <= start + 1 {
        return None;
    }
    let ext = path.substring_char(k, end);
    proof {
        reveal_strlit(".");
        assert(ext@ =~= n.subrange(k - start, n.len() as int));
    }
    let key = String::from_str(".").concat(ext);
    Some(key)
}

} // verus!
