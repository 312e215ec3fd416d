//! Windows-style paths, as the clients that are scanned write them.

use vstd::prelude::*;
use vstd::string::*;

verus! {

/// Whether `c` separates the components of a path.
pub open spec fn is_separator(c: char) -> bool {
    c == '\\' || c == '/'
}

/// Whether `c` is an ASCII letter.
pub open spec fn is_letter(c: char) -> bool {
    65 <= c as u32 <= 90 || 97 <= c as u32 <= 122
}

/// Whether a path begins with a drive: a letter and a colon.
pub open spec fn has_drive(path: Seq<char>) -> bool {
    path.len() >= 2 && is_letter(path[0]) && path[1] == ':'
}

/// The drive that a path begins with; nothing where it begins with none.
pub open spec fn drive_of(path: Seq<char>) -> Seq<char> {
    if has_drive(path) {
        path.take(2)
    } else {
        Seq::<char>::empty()
    }
}

/// Whether a path begins with a prefix of its own: a drive, or the two separators
/// of a network or device path.
pub open spec fn has_prefix(path: Seq<char>) -> bool {
    has_drive(path) || (path.len() >= 2 && is_separator(path[0]) && is_separator(path[1]))
}

/// Whether a path begins at the root: with a separator.
pub open spec fn is_rooted(path: Seq<char>) -> bool {
    path.len() > 0 && is_separator(path[0])
}

/// `base` extended by the component `name`.
///
/// A component with a prefix of its own replaces the base. A component that begins
/// at the root replaces all of the base but its drive. Any other component is
/// appended, with a backslash between the two unless `base` is empty or already ends
/// in a separator.
pub open spec fn joined(base: Seq<char>, name: Seq<char>) -> Seq<char> {
    if has_prefix(name) {
        name
    } else if is_rooted(name) {
        drive_of(base) + name
    } else if base.len() == 0 || is_separator(base.last()) {
        base + name
    } else {
        base.push('\\') + name
    }
}

/// Whether `c` separates the components of a path.
fn separates(c: char) -> (r: bool)
    ensures
        r == is_separator(c),
{
    c == '\\' || c == '/'
}

/// Whether the path begins with a drive.
fn begins_with_drive(path: &str) -> (r: bool)
    ensures
        r == has_drive(path@),
{
    if path.unicode_len() < 2 {
        return false;
    }
    let code: u32 = path.get_char(0) as u32;
    let letter: bool = (65 <= code && code <= 90) || (97 <= code && code <= 122);
    letter && path.get_char(1) == ':'
}

/// Extends the path `base` by the component `name`.
pub fn join_path(base: &str, name: &str) -> (r: String)
    ensures
        r@ == joined(base@, name@),
{
    let name_len: usize = name.unicode_len();
    if begins_with_drive(name) {
        return String::from_str(name);
    }
    if name_len >= 1 && separates(name.get_char(0)) {
        if name_len >= 2 && separates(name.get_char(1)) {
            return String::from_str(name);
        }
        let mut out: String = if begins_with_drive(base) {
            String::from_str(base.substring_char(0, 2))
        } else {
            String::new()
        };
        proof {
            assert(base@.subrange(0, 2) =~= base@.take(2));
        }
        out.append(name);
        return out;
    }
    let n: usize = base.unicode_len();
    let mut out: String = String::from_str(base);
    if n > 0 {
        let last: char = base.get_char(n - 1);
        if !separates(last) {
            proof {
                reveal_strlit("\\");
                assert("\\"@ =~= seq!['\\']);
                assert(base@ + seq!['\\'] =~= base@.push('\\'));
            }
            out.append("\\");
        }
    }
    out.append(name);
    out
}

} // verus!
