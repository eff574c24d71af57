//! Which directory entries the file dialog lists: hidden entries are
//! skipped, directories are always listed, and files only when their
//! extension is one of the wanted ones (ignoring ASCII case) or when no
//! extensions are asked for.

use vstd::prelude::*;
use crate::text::chars_of;

verus! {

/// How the dialog lists an entry.
#[derive(Debug, Clone, Copy, PartialEq, Eq, Structural)]
pub enum EntryKind {
    Dir,
    File,
    Skip,
}

/// ASCII lower case of a character (other characters are unchanged).
pub open spec fn ascii_lower(c: char) -> char {
    if 'A' <= c <= 'Z' { ((c as u32) + 32) as char } else { c }
}

/// The two texts are equal when ASCII letters are compared without case.
pub open spec fn eq_ignoring_ascii_case(a: Seq<char>, b: Seq<char>) -> bool {
    a.len() == b.len() && forall|i: int| 0 <= i < a.len() ==> ascii_lower(#[trigger] a[i]) == ascii_lower(b[i])
}

fn lower(c: char) -> (r: char)
    ensures
        r == ascii_lower(c),
{
    if 'A' <= c && c <= 'Z' {
        ((c as u8) + 32) as char
    } else {
        c
    }
}

/// Whether `a` and `b` are equal ignoring ASCII case, as `str::eq_ignore_ascii_case`.
pub fn eq_ignore_ascii_case(a: &str, b: &str) -> (r: bool)
    ensures
        r == eq_ignoring_ascii_case(a@, b@),
{
    let ac = chars_of(a);
    let bc = chars_of(b);
    if ac.len() != bc.len() {
        return false;
    }
    let n = ac.len();
    let mut i: usize = 0;
    while i < n
        invariant
            n == ac@.len(),
            ac@ == a@,
            bc@ == b@,
            a@.len() == b@.len(),
            i <= n,
            forall|j: int| 0 <= j < i ==> ascii_lower(#[trigger] a@[j]) == ascii_lower(b@[j]),
        decreases n - i,
    {
        if lower(ac[i]) != lower(bc[i]) {
            return false;
        }
        i = i + 1;
    }
    true
}

/// `ext` is one of `extensions`, ignoring ASCII case.
pub open spec fn wanted_extension(extensions: Seq<String>, ext: Seq<char>) -> bool {
    exists|k: int| 0 <= k < extensions.len() && eq_ignoring_ascii_case(#[trigger] extensions[k]@, ext)
}

/// How an entry named `name` is listed; `extension` is the file name's
/// extension, if it has one.
pub open spec fn entry_kind(name: Seq<char>, is_dir: bool, extension: Option<Seq<char>>, extensions: Seq<String>) -> EntryKind {
    if name.len() > 0 && name[0] == '.' {
        EntryKind::Skip
    } else if is_dir {
        EntryKind::Dir
    } else if extensions.len() == 0 {
        EntryKind::File
    } else {
        match extension {
            Some(e) => if wanted_extension(extensions, e) { EntryKind::File } else { EntryKind::Skip },
            None => EntryKind::Skip,
        }
    }
}

/// How the file dialog lists the entry named `name`: hidden entries (a
/// leading `.`) are skipped, directories listed, and files listed when no
/// extensions are asked for or their extension is one of `extensions`.
pub fn classify_entry(name: &str, is_dir: bool, extension: Option<&str>, extensions: &[String]) -> (r: EntryKind)
    ensures
        r == entry_kind(name@, is_dir, match extension { Some(e) => Some(e@), None => None }, extensions@),
{
    if name.unicode_len() > 0 && name.get_char(0) == '.' {
        return EntryKind::Skip;
    }
    if is_dir {
        return EntryKind::Dir;
    }
    if extensions.len() == 0 {
        return EntryKind::File;
    }
    match extension {
        Some(e) => {
            let n = extensions.len();
            let mut k: usize = 0;
            while k < n
                invariant
                    n == extensions@.len(),
                    n > 0,
                    k <= n,
                    !(name@.len() > 0 && name@[0] == '.'),
                    !is_dir,
                    extension == Some(e),
                    forall|j: int| 0 <= j < k ==> !eq_ignoring_ascii_case(#[trigger] extensions@[j]@, e@),
                decreases n - k,
            {
                if eq_ignore_ascii_case(extensions[k].as_str(), e) {
                    assert(eq_ignoring_ascii_case(extensions@[k as int]@, e@));
                    return EntryKind::File;
                }
                k = k + 1;
            }
            EntryKind::Skip
        },
        None => EntryKind::Skip,
    }
}

} // verus!
