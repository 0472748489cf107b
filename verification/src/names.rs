use vstd::prelude::*;
use crate::bytes::{append_bytes, copy_bytes};

verus! {

/// The byte `/`, which separates the components of a path.
pub const SEPARATOR: u8 = 47u8;

/// The byte `.`.
pub const DOT: u8 = 46u8;

/// True of the two names a directory lists for itself and its parent.
pub open spec fn spec_is_dot_or_dotdot(name: Seq<u8>) -> bool {
    name == seq![DOT] || name == seq![DOT, DOT]
}

/// Whether `name` is `.` or `..`.
pub fn is_dot_or_dotdot(name: &[u8]) -> (r: bool)
    ensures
        r == spec_is_dot_or_dotdot(name@),
{
    let n = name.len();
    if n == 1 {
        proof {
            if name@[0] == DOT {
                assert(name@ =~= seq![DOT]);
            }
        }
        name[0] == DOT
    } else if n == 2 {
        proof {
            if name@[0] == DOT && name@[1] == DOT {
                assert(name@ =~= seq![DOT, DOT]);
            }
        }
        name[0] == DOT && name[1] == DOT
    } else {
        proof {
            assert(seq![DOT].len() == 1);
            assert(seq![DOT, DOT].len() == 2);
        }
        false
    }
}

/// True when some byte of `s` is NUL.
pub open spec fn spec_has_nul(s: Seq<u8>) -> bool {
    exists|i: int| 0 <= i < s.len() && s[i] == 0
}

/// Whether `s` holds a NUL byte, which no name passed to the OS may hold.
pub fn has_nul(s: &[u8]) -> (r: bool)
    ensures
        r == spec_has_nul(s@),
{
    let mut i: usize = 0;
    while i < s.len()
        invariant
            i <= s@.len(),
            forall|j: int| 0 <= j < i ==> s@[j] != 0,
        decreases s@.len() - i,
    {
        if s[i] == 0 {
            return true;
        }
        i = i + 1;
    }
    false
}

/// The path of the entry `name` inside the directory `dir`: a name that
/// starts with `/` stands alone; otherwise a separator goes between the two
/// unless `dir` is empty or already ends in one.
pub open spec fn spec_join(dir: Seq<u8>, name: Seq<u8>) -> Seq<u8> {
    if name.len() > 0 && name[0] == SEPARATOR {
        name
    } else if dir.len() == 0 || dir.last() == SEPARATOR {
        dir + name
    } else {
        dir + seq![SEPARATOR] + name
    }
}

/// The path of the entry `name` inside the directory `dir`.
pub fn join_child(dir: &[u8], name: &[u8]) -> (r: Vec<u8>)
    ensures
        r@ == spec_join(dir@, name@),
{
    if name.len() > 0 && name[0] == SEPARATOR {
        return copy_bytes(name);
    }
    let mut r = copy_bytes(dir);
    let n = dir.len();
    if n > 0 && dir[n - 1] != SEPARATOR {
        r.push(SEPARATOR);
    }
    append_bytes(&mut r, name);
    r
}

} // verus!
