//! Path values and the operations the store and the validator need.
//!
//! A path is an ordinary `String`. An absolute path starts with `'/'`;
//! every other path is relative. Joining resolves against a root the way
//! a path push does: an absolute right-hand side replaces the left-hand
//! side entirely.

use vstd::prelude::*;
use vstd::string::StrSliceExecFns;
use vstd::string::StringExecFns;

verus! {

/// True when the path begins with a separator.
pub open spec fn is_absolute_path(p: Seq<char>) -> bool {
    p.len() > 0 && p[0] == '/'
}

/// The path obtained by resolving `b` against the root `a`.
pub open spec fn join_view(a: Seq<char>, b: Seq<char>) -> Seq<char> {
    if is_absolute_path(b) {
        b
    } else if a.len() == 0 {
        b
    } else if a[a.len() - 1] == '/' {
        a + b
    } else {
        a + seq!['/'] + b
    }
}

/// True when `suf` is a suffix of `p`.
pub open spec fn has_suffix(p: Seq<char>, suf: Seq<char>) -> bool {
    suf.len() <= p.len() && p.subrange(p.len() - suf.len(), p.len() as int) == suf
}

/// True when `pre` is a prefix of `p`.
pub open spec fn has_prefix(p: Seq<char>, pre: Seq<char>) -> bool {
    pre.len() <= p.len() && p.subrange(0, pre.len() as int) == pre
}

/// True when `needle` occurs somewhere inside `p`.
pub open spec fn has_substring(p: Seq<char>, needle: Seq<char>) -> bool {
    exists|i: int|
        0 <= i <= p.len() - needle.len() && #[trigger] p.subrange(i, i + needle.len()) == needle
}

pub fn path_is_absolute(p: &str) -> (r: bool)
    ensures
        r == is_absolute_path(p@),
{
    if p.unicode_len() == 0 {
        false
    } else {
        p.get_char(0) == '/'
    }
}

pub fn path_join(a: &str, b: &str) -> (r: String)
    ensures
        r@ == join_view(a@, b@),
{
    let alen = a.unicode_len();
    let blen = b.unicode_len();
    if blen > 0 && b.get_char(0) == '/' {
        b.to_owned()
    } else if alen == 0 {
        b.to_owned()
    } else if a.get_char(alen - 1) == '/' {
        let r = a.to_owned().concat(b);
        r
    } else {
        let mut r = a.to_owned();
        r.append("/");
        proof {
            reveal_strlit("/");
            assert(r@ =~= a@ + seq!['/']);
        }
        let r = r.concat(b);
        r
    }
}

pub fn str_has_suffix(p: &str, suf: &str) -> (r: bool)
    ensures
        r == has_suffix(p@, suf@),
{
    let n = p.unicode_len();
    let m = suf.unicode_len();
    if m > n {
        return false;
    }
    let mut i: usize = 0;
    while i < m
        invariant
            m <= n,
            n == p@.len(),
            m == suf@.len(),
            0 <= i <= m,
            forall|j: int| 0 <= j < i ==> p@[n - m + j] == suf@[j],
        decreases m - i,
    {
        if p.get_char(n - m + i) != suf.get_char(i) {
            proof {
                assert(p@.subrange(n - m, n as int)[i as int] != suf@[i as int]);
            }
            return false;
        }
        i = i + 1;
    }
    proof {
        assert(p@.subrange(n - m, n as int) =~= suf@);
    }
    true
}

pub fn str_has_prefix(p: &str, pre: &str) -> (r: bool)
    ensures
        r == has_prefix(p@, pre@),
{
    let n = p.unicode_len();
    let m = pre.unicode_len();
    if m > n {
        return false;
    }
    let mut i: usize = 0;
    while i < m
        invariant
            m <= n,
            n == p@.len(),
            m == pre@.len(),
            0 <= i <= m,
            forall|j: int| 0 <= j < i ==> p@[j] == pre@[j],
        decreases m - i,
    {
        if p.get_char(i) != pre.get_char(i) {
            proof {
                assert(p@.subrange(0, m as int)[i as int] != pre@[i as int]);
            }
            return false;
        }
        i = i + 1;
    }
    proof {
        assert(p@.subrange(0, m as int) =~= pre@);
    }
    true
}

pub fn str_has_substring(p: &str, needle: &str) -> (r: bool)
    ensures
        r == has_substring(p@, needle@),
{
    let n = p.unicode_len();
    let m = needle.unicode_len();
    if m > n {
        return false;
    }
    let mut start: usize = 0;
    while start <= n - m
        invariant
            m <= n,
            n == p@.len(),
            m == needle@.len(),
            0 <= start <= n - m + 1,
            forall|k: int|
                0 <= k < start ==> #[trigger] p@.subrange(k, k + m) != needle@,
        decreases n - m - start + 1,
    {
        let mut j: usize = 0;
        let mut matched: bool = true;
        while j < m
            invariant
                m <= n,
                n == p@.len(),
                m == needle@.len(),
                0 <= start <= n - m,
                0 <= j <= m,
                matched ==> forall|t: int| 0 <= t < j ==> p@[start + t] == needle@[t],
                !matched ==> m > 0 && p@.subrange(start as int, start + m) != needle@,
            decreases m - j,
        {
            if p.get_char(start + j) != needle.get_char(j) {
                matched = false;
                proof {
                    assert(p@.subrange(start as int, start + m)[j as int] != needle@[j as int]);
                }
                j = m;
            } else {
                j = j + 1;
            }
        }
        if matched {
            proof {
                assert(p@.subrange(start as int, start + m) =~= needle@);
            }
            return true;
        }
        start = start + 1;
    }
    false
}

/// The longest suffix of `p` that holds no separator: its file name.
pub open spec fn file_name_view(p: Seq<char>) -> Seq<char>
    decreases p.len(),
{
    if p.len() == 0 {
        p
    } else if p[p.len() - 1] == '/' {
        Seq::<char>::empty()
    } else {
        file_name_view(p.take(p.len() - 1)) + seq![p[p.len() - 1]]
    }
}

proof fn lemma_file_name_no_slash(p: Seq<char>, i: int)
    requires
        0 <= i <= p.len(),
        forall|j: int| i <= j < p.len() ==> p[j] != '/',
        i == 0 || p[i - 1] == '/',
    ensures
        file_name_view(p) == p.subrange(i, p.len() as int),
    decreases p.len(),
{
    if p.len() == 0 {
        assert(file_name_view(p) =~= p.subrange(i, p.len() as int));
    } else if i == p.len() {
        assert(p[p.len() - 1] == '/');
        assert(file_name_view(p) =~= p.subrange(i, p.len() as int));
    } else {
        assert(p[p.len() - 1] != '/');
        lemma_file_name_no_slash(p.take(p.len() - 1), i);
        assert(p.take(p.len() - 1).subrange(i, p.len() - 1) =~= p.subrange(i, p.len() - 1));
        assert(p.subrange(i, p.len() - 1) + seq![p[p.len() - 1]] =~= p.subrange(i, p.len() as int));
    }
}

pub fn path_file_name(p: &str) -> (r: String)
    ensures
        r@ == file_name_view(p@),
{
    let n = p.unicode_len();
    let mut i: usize = n;
    while i > 0
        invariant
            n == p@.len(),
            0 <= i <= n,
            forall|j: int| i <= j < n ==> p@[j] != '/',
        decreases i,
    {
        if p.get_char(i - 1) == '/' {
            proof {
                lemma_file_name_no_slash(p@, i as int);
            }
            let r = p.substring_char(i, n).to_owned();
            return r;
        }
        i = i - 1;
    }
    proof {
        lemma_file_name_no_slash(p@, 0);
        assert(p@.subrange(0, n as int) =~= p@);
    }
    p.to_owned()
}

/// True when the file name of `p` carries an extension: a dot strictly
/// after the file name's first character.
pub open spec fn file_name_has_extension(p: Seq<char>) -> bool {
    exists|i: int| 0 < i < file_name_view(p).len() && file_name_view(p)[i] == '.'
}

/// The declared path of a generated diff artifact: `ext` appended after
/// the path's extension, or after a fresh dot when the file name has none.
pub open spec fn add_extension_view(p: Seq<char>, ext: Seq<char>) -> Seq<char> {
    if file_name_has_extension(p) {
        p + ext
    } else {
        p + seq!['.'] + ext
    }
}

pub fn add_extension(p: &str, ext: &str) -> (r: String)
    ensures
        r@ == add_extension_view(p@, ext@),
{
    let name = path_file_name(p);
    let name_len = name.as_str().unicode_len();
    let mut i: usize = 1;
    let mut found: bool = false;
    while i < name_len
        invariant
            name_len == name@.len(),
            1 <= i,
            i <= name_len || (name_len < 1 && i == 1),
            found ==> file_name_has_extension(p@),
            !found ==> forall|j: int| 0 < j < i ==> name@[j] != '.',
            name@ == file_name_view(p@),
        decreases name_len - i,
    {
        if name.as_str().get_char(i) == '.' {
            found = true;
            proof {
                assert(0 < i < file_name_view(p@).len() && file_name_view(p@)[i as int] == '.');
            }
            i = name_len;
        } else {
            i = i + 1;
        }
    }
    if found {
        let r = p.to_owned().concat(ext);
        r
    } else {
        assert(!file_name_has_extension(p@));
        let mut r = p.to_owned();
        r.append(".");
        proof {
            reveal_strlit(".");
            assert(r@ =~= p@ + seq!['.']);
        }
        let r = r.concat(ext);
        r
    }
}

} // verus!
