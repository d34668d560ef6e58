//! Path-component semantics for module paths: the final component and the
//! directory part, as the platform's own path handling has them. A drive,
//! network-share, device, or verbatim prefix never contributes a
//! component; trailing separators and redundant `.` components are
//! ignored; inside a verbatim path only the backslash separates and `.`
//! is an ordinary name. One stated simplification: the parent of a path
//! directly below a repeated root separator keeps a single one.

use vstd::prelude::*;

verus! {

/// Whether `c` separates path components outside verbatim paths.
pub open spec fn is_sep(c: char) -> bool {
    c == '\\' || c == '/'
}

pub open spec fn is_ascii_letter(c: char) -> bool {
    ('a' as u32) <= (c as u32) && (c as u32) <= ('z' as u32) || ('A' as u32) <= (c as u32) && (
    c as u32) <= ('Z' as u32)
}

/// Whether the path carries a verbatim prefix; inside one, only the
/// backslash separates and `.` components are kept.
pub open spec fn path_verbatim(s: Seq<char>) -> bool {
    s.len() >= 4 && s[0] == '\\' && s[1] == '\\' && s[2] == '?' && s[3] == '\\'
}

/// Whether `c` separates components of the path `s`.
pub open spec fn sep_in(s: Seq<char>, c: char) -> bool {
    if path_verbatim(s) {
        c == '\\'
    } else {
        is_sep(c)
    }
}

/// The end of the component that starts at `i`, scanning right; under
/// `verbatim` only the backslash ends it.
pub open spec fn comp_end_from(s: Seq<char>, i: int, verbatim: bool) -> int
    decreases s.len() - i,
{
    if 0 <= i < s.len() && !(if verbatim {
        s[i] == '\\'
    } else {
        is_sep(s[i])
    }) {
        comp_end_from(s, i + 1, verbatim)
    } else {
        i
    }
}

/// The length of the path's prefix, which never contributes a component:
/// a drive (`C:`); a network share (two backslashes, then a nonempty
/// server and a nonempty share); a device (`\\.\` and one component); or
/// a verbatim prefix (`\\?\` and one component — the whole server and
/// share for `\\?\UNC\`).
pub open spec fn prefix_len(s: Seq<char>) -> int {
    if s.len() >= 2 && s[0] == '\\' && s[1] == '\\' {
        if s.len() >= 4 && s[2] == '?' && s[3] == '\\' {
            if s.len() >= 8 && s[4] == 'U' && s[5] == 'N' && s[6] == 'C' && s[7] == '\\' {
                let server_end = comp_end_from(s, 8, true);
                if server_end < s.len() {
                    comp_end_from(s, server_end + 1, true)
                } else {
                    server_end
                }
            } else {
                comp_end_from(s, 4, true)
            }
        } else if s.len() >= 4 && s[2] == '.' && s[3] == '\\' {
            comp_end_from(s, 4, false)
        } else {
            let server_end = comp_end_from(s, 2, false);
            if 2 < server_end < s.len() {
                let share_end = comp_end_from(s, server_end + 1, false);
                if share_end > server_end + 1 {
                    share_end
                } else {
                    0
                }
            } else {
                0
            }
        }
    } else if s.len() >= 2 && s[1] == ':' && is_ascii_letter(s[0]) {
        2
    } else {
        0
    }
}

/// The end of the path's last meaningful component, scanning down from
/// `e`: trailing separators are ignored and — outside verbatim paths —
/// so is a bare `.` component after a separator, as the platform's path
/// normalization ignores both. Never crosses the prefix at `p`.
pub open spec fn component_end(s: Seq<char>, p: int, e: int) -> int
    decreases e - p,
{
    if p < e <= s.len() && sep_in(s, s[e - 1]) {
        component_end(s, p, e - 1)
    } else if !path_verbatim(s) && p + 1 < e <= s.len() && s[e - 1] == '.' && is_sep(s[e - 2]) {
        component_end(s, p, e - 1)
    } else {
        e
    }
}

/// The start of the component that ends at `e`: scans down over
/// non-separators, never crossing the prefix at `p`.
pub open spec fn component_start(s: Seq<char>, p: int, e: int) -> int
    decreases e - p,
{
    if p < e <= s.len() && !sep_in(s, s[e - 1]) {
        component_start(s, p, e - 1)
    } else {
        e
    }
}

/// Scans down from `e` over separators, never crossing the prefix at `p`.
pub open spec fn sep_trim(s: Seq<char>, p: int, e: int) -> int
    decreases e - p,
{
    if p < e <= s.len() && sep_in(s, s[e - 1]) {
        sep_trim(s, p, e - 1)
    } else {
        e
    }
}

/// The final component of a path, trailing separators ignored: absent for
/// an empty, prefix-only or root path, when the final component is `..`,
/// and when it is `.` outside a verbatim path.
pub open spec fn path_file_name(s: Seq<char>) -> Option<Seq<char>> {
    let p = prefix_len(s);
    let e = component_end(s, p, s.len() as int);
    let st = component_start(s, p, e);
    if e == p {
        None
    } else if !path_verbatim(s) && e - st == 1 && s[st] == '.' {
        None
    } else if e - st == 2 && s[st] == '.' && s[st + 1] == '.' {
        None
    } else {
        Some(s.subrange(st, e))
    }
}

/// The path without its final component, trailing separators ignored:
/// absent for an empty, prefix-only or root path; the root or the prefix
/// itself — possibly the empty path — where only the popped component
/// stood below it.
pub open spec fn path_parent(s: Seq<char>) -> Option<Seq<char>> {
    let p = prefix_len(s);
    let e = component_end(s, p, s.len() as int);
    if e == p {
        None
    } else {
        let st = component_start(s, p, e);
        let r = sep_trim(s, p, st);
        if r > p {
            Some(s.subrange(0, r))
        } else if st == p {
            Some(s.subrange(0, p))
        } else {
            Some(s.subrange(0, p + 1))
        }
    }
}

/// Whether the path carries a verbatim prefix.
fn is_verbatim(s: &str) -> (v: bool)
    ensures
        v == path_verbatim(s@),
{
    s.unicode_len() >= 4 && s.get_char(0) == '\\' && s.get_char(1) == '\\' && s.get_char(2) == '?'
        && s.get_char(3) == '\\'
}

/// The end of the component starting at `i`, scanning right.
fn find_comp_end_from(s: &str, i: usize, verbatim: bool) -> (e: usize)
    requires
        i <= s@.len(),
    ensures
        e == comp_end_from(s@, i as int, verbatim),
        i <= e <= s@.len(),
{
    let n = s.unicode_len();
    let mut e = i;
    while e < n && comp_continues(s, e, verbatim)
        invariant
            i <= e <= n,
            n == s@.len(),
            comp_end_from(s@, i as int, verbatim) == comp_end_from(s@, e as int, verbatim),
        decreases n - e,
    {
        e = e + 1;
    }
    proof {
        assert(comp_end_from(s@, e as int, verbatim) == e);
    }
    e
}

/// Whether the component scanned from the left goes on at position `e`.
fn comp_continues(s: &str, e: usize, verbatim: bool) -> (b: bool)
    requires
        e < s@.len(),
    ensures
        b == !(if verbatim {
            s@[e as int] == '\\'
        } else {
            is_sep(s@[e as int])
        }),
{
    let c = s.get_char(e);
    if verbatim {
        c != '\\'
    } else {
        c != '\\' && c != '/'
    }
}

/// The length of the path's prefix, if it carries one.
fn prefix_of(s: &str) -> (p: usize)
    ensures
        p == prefix_len(s@),
        p <= s@.len(),
{
    let n = s.unicode_len();
    if n < 2 {
        return 0;
    }
    let c0 = s.get_char(0);
    let c1 = s.get_char(1);
    if c0 == '\\' && c1 == '\\' {
        if n >= 4 && s.get_char(2) == '?' && s.get_char(3) == '\\' {
            if n >= 8 && s.get_char(4) == 'U' && s.get_char(5) == 'N' && s.get_char(6) == 'C'
                && s.get_char(7) == '\\' {
                let server_end = find_comp_end_from(s, 8, true);
                if server_end < n {
                    find_comp_end_from(s, server_end + 1, true)
                } else {
                    server_end
                }
            } else {
                find_comp_end_from(s, 4, true)
            }
        } else if n >= 4 && s.get_char(2) == '.' && s.get_char(3) == '\\' {
            find_comp_end_from(s, 4, false)
        } else {
            let server_end = find_comp_end_from(s, 2, false);
            if 2 < server_end && server_end < n {
                let share_end = find_comp_end_from(s, server_end + 1, false);
                if share_end > server_end + 1 {
                    share_end
                } else {
                    0
                }
            } else {
                0
            }
        }
    } else if c1 == ':' {
        let c = c0 as u32;
        if 'a' as u32 <= c && c <= 'z' as u32 || 'A' as u32 <= c && c <= 'Z' as u32 {
            2
        } else {
            0
        }
    } else {
        0
    }
}

/// Whether the component ending at `e` is dropped by the normalization:
/// a separator, or — outside verbatim paths — a bare `.` right after one.
fn should_drop(s: &str, p: usize, e: usize, verbatim: bool) -> (b: bool)
    requires
        p < e <= s@.len(),
        verbatim == path_verbatim(s@),
    ensures
        b == (sep_in(s@, s@[e - 1]) || (!path_verbatim(s@) && p + 1 < e && s@[e - 1] == '.'
            && is_sep(s@[e - 2]))),
{
    let c = s.get_char(e - 1);
    if c == '\\' || (!verbatim && c == '/') {
        true
    } else if !verbatim && c == '.' && e > p + 1 {
        let c2 = s.get_char(e - 2);
        c2 == '\\' || c2 == '/'
    } else {
        false
    }
}

fn find_component_end(s: &str, p: usize, verbatim: bool) -> (e: usize)
    requires
        p <= s@.len(),
        verbatim == path_verbatim(s@),
    ensures
        e == component_end(s@, p as int, s@.len() as int),
        p <= e <= s@.len(),
        e > p ==> !sep_in(s@, s@[e - 1]),
{
    let n = s.unicode_len();
    let mut e = n;
    while e > p && should_drop(s, p, e, verbatim)
        invariant
            p <= e <= n,
            n == s@.len(),
            verbatim == path_verbatim(s@),
            component_end(s@, p as int, n as int) == component_end(s@, p as int, e as int),
        decreases e,
    {
        e = e - 1;
    }
    proof {
        assert(component_end(s@, p as int, e as int) == e);
    }
    e
}

fn find_component_start(s: &str, p: usize, e: usize, verbatim: bool) -> (st: usize)
    requires
        p <= e <= s@.len(),
        verbatim == path_verbatim(s@),
    ensures
        st == component_start(s@, p as int, e as int),
        p <= st <= e,
        e > p && !sep_in(s@, s@[e - 1]) ==> st < e,
{
    let mut st = e;
    while st > p && !char_is_sep(s, s.get_char(st - 1), verbatim)
        invariant
            p <= st <= e,
            e <= s@.len(),
            verbatim == path_verbatim(s@),
            component_start(s@, p as int, e as int) == component_start(s@, p as int, st as int),
        decreases st,
    {
        st = st - 1;
    }
    proof {
        assert(component_start(s@, p as int, st as int) == st);
        if e > p && !sep_in(s@, s@[e - 1]) {
            assert(component_start(s@, p as int, e as int) == component_start(
                s@,
                p as int,
                e as int - 1,
            ));
            lemma_component_start_le(s@, p as int, e as int - 1);
        }
    }
    st
}

fn char_is_sep(s: &str, c: char, verbatim: bool) -> (b: bool)
    requires
        verbatim == path_verbatim(s@),
    ensures
        b == sep_in(s@, c),
{
    if verbatim {
        c == '\\'
    } else {
        c == '\\' || c == '/'
    }
}

proof fn lemma_component_start_le(s: Seq<char>, p: int, e: int)
    requires
        p <= e,
    ensures
        component_start(s, p, e) <= e,
    decreases e - p,
{
    if p < e <= s.len() && !sep_in(s, s[e - 1]) {
        lemma_component_start_le(s, p, e - 1);
    }
}

fn trim_seps(s: &str, p: usize, e: usize, verbatim: bool) -> (r: usize)
    requires
        p <= e <= s@.len(),
        verbatim == path_verbatim(s@),
    ensures
        r == sep_trim(s@, p as int, e as int),
        p <= r <= e,
{
    let mut r = e;
    while r > p && char_is_sep(s, s.get_char(r - 1), verbatim)
        invariant
            p <= r <= e,
            e <= s@.len(),
            verbatim == path_verbatim(s@),
            sep_trim(s@, p as int, e as int) == sep_trim(s@, p as int, r as int),
        decreases r,
    {
        r = r - 1;
    }
    proof {
        assert(sep_trim(s@, p as int, r as int) == r);
    }
    r
}

/// The final component of `s`, as `path_file_name` states it.
pub fn file_name_of(s: &str) -> (r: Option<&str>)
    ensures
        match r {
            Some(name) => path_file_name(s@) == Some(name@),
            None => path_file_name(s@) is None,
        },
{
    let verbatim = is_verbatim(s);
    let p = prefix_of(s);
    let e = find_component_end(s, p, verbatim);
    if e == p {
        return None;
    }
    let st = find_component_start(s, p, e, verbatim);
    if !verbatim && e - st == 1 && s.get_char(st) == '.' {
        return None;
    }
    if e - st == 2 && s.get_char(st) == '.' && s.get_char(st + 1) == '.' {
        return None;
    }
    let name = s.substring_char(st, e);
    proof {
        assert(name@ =~= s@.subrange(st as int, e as int));
    }
    Some(name)
}

/// The directory part of `s`, as `path_parent` states it.
pub fn parent_of(s: &str) -> (r: Option<&str>)
    ensures
        match r {
            Some(dir) => path_parent(s@) == Some(dir@),
            None => path_parent(s@) is None,
        },
{
    let verbatim = is_verbatim(s);
    let p = prefix_of(s);
    let e = find_component_end(s, p, verbatim);
    if e == p {
        return None;
    }
    let st = find_component_start(s, p, e, verbatim);
    let r = trim_seps(s, p, st, verbatim);
    if r > p {
        let dir = s.substring_char(0, r);
        proof {
            assert(dir@ =~= s@.subrange(0, r as int));
        }
        Some(dir)
    } else if st == p {
        let dir = s.substring_char(0, p);
        proof {
            assert(dir@ =~= s@.subrange(0, p as int));
        }
        Some(dir)
    } else {
        let dir = s.substring_char(0, p + 1);
        proof {
            assert(dir@ =~= s@.subrange(0, p as int + 1));
        }
        Some(dir)
    }
}

} // verus!
