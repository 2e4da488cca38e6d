//! Names and paths of archive entries.
//!
//! An entry's raw name may carry nested directories; only its final path
//! component is ever used as an output filename.  This module gives the
//! mathematical model of that final component, of its extension and stem,
//! and the verified string functions that compute them, together with the
//! builders for the output paths `<root>/<extension>/<basename>`.

use vstd::prelude::*;

verus! {

/// The index just after the last occurrence of `c` in `s`, or `0` when
/// `c` does not occur.
pub open spec fn after_last(s: Seq<char>, c: char) -> int
    decreases s.len(),
{
    if s.len() == 0 {
        0
    } else if s.last() == c {
        s.len() as int
    } else {
        after_last(s.drop_last(), c)
    }
}

/// `after_last` is the one index `i` with no `c` at or after `i` and
/// either `i == 0` or a `c` just before `i`.
pub proof fn lemma_after_last_position(s: Seq<char>, c: char, i: int)
    requires
        0 <= i <= s.len(),
        forall|j: int| i <= j < s.len() ==> s[j] != c,
        i == 0 || s[i - 1] == c,
    ensures
        after_last(s, c) == i,
    decreases s.len(),
{
    if s.len() == 0 {
    } else if s.last() == c {
        assert(i == s.len());
    } else {
        assert(i < s.len());
        lemma_after_last_position(s.drop_last(), c, i);
    }
}

/// The final path component of a raw entry name: everything after the
/// last `/`, or the whole name when there is no `/`.
pub open spec fn basename_of(s: Seq<char>) -> Seq<char> {
    s.subrange(after_last(s, '/'), s.len() as int)
}

/// Whether a raw name has a usable final component: nonempty and not one
/// of the relative-directory markers.
pub open spec fn has_file_name(s: Seq<char>) -> bool {
    &&& basename_of(s).len() > 0
    &&& basename_of(s) != "."@
    &&& basename_of(s) != ".."@
}

/// Whether a basename carries an extension: a `.` at some index `>= 1`,
/// so that a leading dot alone does not count.
pub open spec fn has_ext(b: Seq<char>) -> bool {
    after_last(b, '.') >= 2
}

/// The extension of a basename: everything after its last `.`.
/// Meaningful only when `has_ext(b)`.
pub open spec fn ext_of(b: Seq<char>) -> Seq<char> {
    b.subrange(after_last(b, '.'), b.len() as int)
}

/// The stem of a basename: everything before its last `.`, or the whole
/// basename when it has no extension.
pub open spec fn stem_of(b: Seq<char>) -> Seq<char> {
    if has_ext(b) {
        b.subrange(0, after_last(b, '.') - 1)
    } else {
        b
    }
}

/// `a` and `b` joined by a single path separator.
pub open spec fn joined(a: Seq<char>, b: Seq<char>) -> Seq<char> {
    a + "/"@ + b
}

/// Scans `s` from the end for `c`.
fn index_after_last(s: &str, c: char) -> (i: usize)
    ensures
        i == after_last(s@, c),
        i <= s@.len(),
{
    let n = s.unicode_len();
    let mut i = n;
    while i > 0 && s.get_char(i - 1) != c
        invariant
            i <= n,
            n == s@.len(),
            forall|j: int| i <= j < n ==> s@[j] != c,
        decreases i,
    {
        i = i - 1;
    }
    proof {
        lemma_after_last_position(s@, c, i as int);
    }
    i
}

/// The final path component of `s`, as `basename_of` describes it.
pub fn basename(s: &str) -> (r: String)
    ensures
        r@ == basename_of(s@),
{
    let n = s.unicode_len();
    let cut = index_after_last(s, '/');
    let b = s.substring_char(cut, n);
    String::from_str(b)
}

/// The extension of basename `b`, or `None` when `b` has none.
pub fn extension(b: &str) -> (r: Option<String>)
    ensures
        match r {
            Some(e) => has_ext(b@) && e@ == ext_of(b@),
            None => !has_ext(b@),
        },
{
    let n = b.unicode_len();
    let cut = index_after_last(b, '.');
    if cut >= 2 {
        let e = b.substring_char(cut, n);
        Some(String::from_str(e))
    } else {
        None
    }
}

/// The stem of basename `b`, as `stem_of` describes it.
pub fn stem(b: &str) -> (r: String)
    ensures
        r@ == stem_of(b@),
{
    let cut = index_after_last(b, '.');
    if cut >= 2 {
        let st = b.substring_char(0, cut - 1);
        String::from_str(st)
    } else {
        String::from_str(b)
    }
}

/// Whether two strings hold the same characters.
pub fn str_eq(a: &str, b: &str) -> (r: bool)
    ensures
        r == (a@ == b@),
{
    let na = a.unicode_len();
    let nb = b.unicode_len();
    if na != nb {
        return false;
    }
    let mut i: usize = 0;
    while i < na
        invariant
            i <= na,
            na == a@.len(),
            na == b@.len(),
            forall|j: int| 0 <= j < i ==> a@[j] == b@[j],
        decreases na - i,
    {
        if a.get_char(i) != b.get_char(i) {
            return false;
        }
        i = i + 1;
    }
    proof {
        assert(a@ =~= b@);
    }
    true
}

/// `a` and `b` joined by a single path separator.
pub fn join(a: &str, b: &str) -> (r: String)
    ensures
        r@ == joined(a@, b@),
{
    String::from_str(a).concat("/").concat(b)
}

} // verus!
