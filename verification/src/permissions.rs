//! `Permissions`: Unix-style rwx bits for a single owner.
use vstd::prelude::*;

verus! {

/// Unix-style permission bits for owner (simplified: single user model).
#[derive(Debug, Clone, Copy, PartialEq, Eq, Structural)]
pub struct Permissions {
    pub read: bool,
    pub write: bool,
    pub execute: bool,
}

/// The octal digit of a set of permissions: 4 for read, 2 for write, 1 for execute.
pub open spec fn octal_of(p: Permissions) -> u8 {
    ((if p.read { 4u8 } else { 0u8 }) + (if p.write { 2u8 } else { 0u8 }) + (if p.execute {
        1u8
    } else {
        0u8
    })) as u8
}

/// The permissions whose bits are set in `val`.
pub open spec fn permissions_of_octal(val: u8) -> Permissions {
    Permissions { read: val & 4 != 0, write: val & 2 != 0, execute: val & 1 != 0 }
}

/// The three-character `rwx` rendering.
pub open spec fn rwx_of(p: Permissions) -> Seq<char> {
    seq![
        if p.read { 'r' } else { '-' },
        if p.write { 'w' } else { '-' },
        if p.execute { 'x' } else { '-' },
    ]
}

impl Permissions {
    pub fn new(read: bool, write: bool, execute: bool) -> (r: Self)
        ensures
            r == (Permissions { read, write, execute }),
    {
        Self { read, write, execute }
    }

    /// `rwx` -- full permissions.
    pub fn all() -> (r: Self)
        ensures
            r == (Permissions { read: true, write: true, execute: true }),
    {
        Self::new(true, true, true)
    }

    /// `r--` -- read only.
    pub fn read_only() -> (r: Self)
        ensures
            r == (Permissions { read: true, write: false, execute: false }),
    {
        Self::new(true, false, false)
    }

    /// `rw-` -- read/write.
    pub fn read_write() -> (r: Self)
        ensures
            r == (Permissions { read: true, write: true, execute: false }),
    {
        Self::new(true, true, false)
    }

    /// No permissions.
    pub fn none() -> (r: Self)
        ensures
            r == (Permissions { read: false, write: false, execute: false }),
    {
        Self::new(false, false, false)
    }

    /// Numeric representation (octal-style single digit 0-7).
    pub fn as_octal(&self) -> (v: u8)
        ensures
            v == octal_of(*self),
            v <= 7,
    {
        let mut v: u8 = 0;
        if self.read {
            v += 4;
        }
        if self.write {
            v += 2;
        }
        if self.execute {
            v += 1;
        }
        v
    }

    /// Build from octal digit (0-7).
    pub fn from_octal(val: u8) -> (r: Self)
        ensures
            r == permissions_of_octal(val),
    {
        Self { read: val & 4 != 0, write: val & 2 != 0, execute: val & 1 != 0 }
    }

    /// The `rwx` rendering, such as `r-x`.
    pub fn to_rwx_string(&self) -> (s: String)
        ensures
            s@ == rwx_of(*self),
    {
        let mut s = String::new();
        proof {
            reveal_strlit("r");
            reveal_strlit("w");
            reveal_strlit("x");
            reveal_strlit("-");
        }
        if self.read {
            s.append("r");
        } else {
            s.append("-");
        }
        if self.write {
            s.append("w");
        } else {
            s.append("-");
        }
        if self.execute {
            s.append("x");
        } else {
            s.append("-");
        }
        assert(s@ =~= rwx_of(*self));
        s
    }
}

/// Reading a digit from 0 to 7 as permissions and writing it back gives the digit.
pub proof fn lemma_octal_roundtrip(val: u8)
    requires
        val <= 7,
    ensures
        octal_of(permissions_of_octal(val)) == val,
{
    assert(((if val & 4 != 0 { 4u8 } else { 0u8 }) + (if val & 2 != 0 { 2u8 } else { 0u8 }) + (
    if val & 1 != 0 {
        1u8
    } else {
        0u8
    })) == val) by (bit_vector)
        requires
            val <= 7,
    ;
}

/// Writing permissions as a digit and reading it back gives the same permissions.
pub proof fn lemma_permissions_roundtrip(p: Permissions)
    ensures
        permissions_of_octal(octal_of(p)) == p,
{
    let v = octal_of(p);
    let (r, w, x) = (p.read, p.write, p.execute);
    assert(v == (if r { 4u8 } else { 0u8 }) + (if w { 2u8 } else { 0u8 }) + (if x { 1u8 } else { 0u8 }));
    assert({
        let v = ((if r { 4u8 } else { 0u8 }) + (if w { 2u8 } else { 0u8 }) + (if x { 1u8 } else { 0u8 })) as u8;
        &&& (v & 4 != 0) == r
        &&& (v & 2 != 0) == w
        &&& (v & 1 != 0) == x
    }) by (bit_vector);
}

} // verus!
