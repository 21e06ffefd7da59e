//! Capability checks that guard host operations on unforgeable references.

use vstd::prelude::*;
use crate::key::{AccessRights, Key};
use crate::tracking_copy::{AddError, TrackingCopy};
use crate::transform::{apply_view, Transform, TransformView};
use crate::value::Value;

verus! {

/// Why a host operation on a key was refused.
#[derive(Debug, Clone, Copy, PartialEq, Eq, Structural)]
pub enum AccessError {
    /// The reference was never granted to the calling frame.
    ForgedReference,
    /// It was granted, but without the rights the operation needs.
    InvalidAccessRights,
}

/// Whether a key is a reference to `addr`.
pub open spec fn refers_to(k: Key, addr: [u8; 32]) -> bool {
    match k {
        Key::URef(a, _) => a == addr,
        _ => false,
    }
}

/// Whether a key is a reference to `addr` with every right in `required`.
pub open spec fn grants(k: Key, addr: [u8; 32], required: AccessRights) -> bool {
    match k {
        Key::URef(a, r) => a == addr && r.includes(required),
        _ => false,
    }
}

/// Whether `granted` holds a reference to the address of `addr`.
pub open spec fn granted_addr(granted: Seq<Key>, addr: [u8; 32]) -> bool {
    exists|i: int| 0 <= i < granted.len() && #[trigger] refers_to(granted[i], addr)
}

/// Whether `granted` holds a reference to `addr` with every right in `required`.
pub open spec fn granted_with(granted: Seq<Key>, addr: [u8; 32], required: AccessRights) -> bool {
    exists|i: int| 0 <= i < granted.len() && #[trigger] grants(granted[i], addr, required)
}

/// What the check on `key` for the rights `required` answers.
pub open spec fn access_outcome(granted: Seq<Key>, key: Key, required: AccessRights) -> Result<
    (),
    AccessError,
> {
    match key {
        Key::URef(addr, _) => if granted_with(granted, addr, required) {
            Ok(())
        } else if granted_addr(granted, addr) {
            Err(AccessError::InvalidAccessRights)
        } else {
            Err(AccessError::ForgedReference)
        },
        _ => Ok(()),
    }
}

pub open spec fn read_right() -> AccessRights {
    AccessRights { read: true, write: false, add: false }
}

pub open spec fn write_right() -> AccessRights {
    AccessRights { read: false, write: true, add: false }
}

pub open spec fn add_right() -> AccessRights {
    AccessRights { read: false, write: false, add: true }
}

/// The check a host operation makes before it touches `key` with the rights
/// `required`: accounts and contract hashes pass; a reference passes only if
/// the frame was granted one to the same address whose rights include those
/// asked for, and fails as forged where it was never granted one.
pub fn check_access(granted: &Vec<Key>, key: &Key, required: AccessRights) -> (r: Result<
    (),
    AccessError,
>)
    ensures
        r == access_outcome(granted@, *key, required),
{
    let addr = match key {
        Key::URef(a, _) => *a,
        _ => {
            return Ok(());
        },
    };
    let probe = Key::URef(addr, required);
    let mut seen = false;
    let mut i: usize = 0;
    while i < granted.len()
        invariant
            i <= granted@.len(),
            probe == Key::URef(addr, required),
            refers_to(*key, addr),
            forall|j: int| 0 <= j < i ==> !#[trigger] grants(granted@[j], addr, required),
            seen == exists|j: int| 0 <= j < i && #[trigger] refers_to(granted@[j], addr),
        decreases granted@.len() - i,
    {
        match &granted[i] {
            Key::URef(a, r) => {
                let same = Key::URef(*a, required) == probe;
                if same {
                    if r.contains(&required) {
                        assert(grants(granted@[i as int], addr, required));
                        return Ok(());
                    }
                    assert(refers_to(granted@[i as int], addr));
                    seen = true;
                }
            },
            _ => {},
        }
        i += 1;
    }
    if seen {
        Err(AccessError::InvalidAccessRights)
    } else {
        Err(AccessError::ForgedReference)
    }
}

/// A frame that was never granted a reference to an address cannot use one:
/// whatever rights it claims, the check fails as forged.
pub proof fn lemma_unforgeable(granted: Seq<Key>, addr: [u8; 32], required: AccessRights)
    requires
        !granted_addr(granted, addr),
    ensures
        !granted_with(granted, addr, required),
{
    if granted_with(granted, addr, required) {
        let i = choose|i: int| 0 <= i < granted.len() && #[trigger] grants(granted[i], addr, required);
        assert(refers_to(granted[i], addr));
    }
}


/// Why a host operation failed.
#[derive(Debug, Clone, Copy)]
pub enum HostError {
    Access(AccessError),
    Add(AddError),
}

/// The guest's `read`: checks the read right, then reads through the
/// tracking copy; a refused check changes nothing.
pub fn host_read(tc: &mut TrackingCopy, granted: &Vec<Key>, key: &Key) -> (r: Result<
    Option<Value>,
    HostError,
>)
    ensures
        match access_outcome(granted@, *key, read_right()) {
            Err(e) => r matches Err(HostError::Access(x)) && x == e && final(tc)@ == old(tc)@,
            Ok(()) => match old(tc)@.current(*key) {
                None => r matches Ok(None) && final(tc)@ == old(tc)@,
                Some(v) => r matches Ok(Some(w)) && w@ == v && final(tc)@.current(*key) == Some(v),
            },
        },
{
    match check_access(granted, key, AccessRights { read: true, write: false, add: false }) {
        Err(e) => Err(HostError::Access(e)),
        Ok(()) => Ok(tc.read(key)),
    }
}

/// The guest's `write`: checks the write right, then writes through the
/// tracking copy; a refused check changes nothing.
pub fn host_write(tc: &mut TrackingCopy, granted: &Vec<Key>, key: Key, v: Value) -> (r: Result<
    (),
    HostError,
>)
    ensures
        match access_outcome(granted@, key, write_right()) {
            Err(e) => r matches Err(HostError::Access(x)) && x == e && final(tc)@ == old(tc)@,
            Ok(()) => {
                &&& r is Ok
                &&& final(tc)@.current(key) == Some(v@)
                &&& final(tc)@.ops == old(tc)@.ops.push((key, TransformView::Write(v@)))
            },
        },
{
    match check_access(granted, &key, AccessRights { read: false, write: true, add: false }) {
        Err(e) => Err(HostError::Access(e)),
        Ok(()) => {
            tc.write(key, v);
            Ok(())
        },
    }
}

/// The guest's `add`: checks the add right, then adds through the tracking
/// copy; a refused check or add changes nothing.
pub fn host_add(tc: &mut TrackingCopy, granted: &Vec<Key>, key: Key, t: Transform) -> (r: Result<
    (),
    HostError,
>)
    ensures
        match access_outcome(granted@, key, add_right()) {
            Err(e) => r matches Err(HostError::Access(x)) && x == e && final(tc)@ == old(tc)@,
            Ok(()) => match old(tc)@.current(key) {
                None => r matches Err(HostError::Add(AddError::KeyNotFound(k))) && k == key
                    && final(tc)@ == old(tc)@,
                Some(v) => match apply_view(t@, v) {
                    Err(e) => r matches Err(HostError::Add(AddError::TypeMismatch(x))) && x == e
                        && final(tc)@ == old(tc)@,
                    Ok(w) => r is Ok && final(tc)@.current(key) == Some(w) && final(tc)@.ops
                        == old(tc)@.ops.push((key, t@)),
                },
            },
        },
{
    match check_access(granted, &key, AccessRights { read: false, write: false, add: true }) {
        Err(e) => Err(HostError::Access(e)),
        Ok(()) => match tc.add(key, t) {
            Ok(()) => Ok(()),
            Err(e) => Err(HostError::Add(e)),
        },
    }
}

} // verus!
