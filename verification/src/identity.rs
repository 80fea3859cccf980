//! Who takes part: identities, and identities that the host has authenticated.

use vstd::prelude::*;
use vstd::std_specs::cmp::PartialEqSpecImpl;

verus! {

/// The public identifier of a participant: 32 opaque bytes. It is not secret.
#[derive(Clone, Copy, Debug, Eq)]
pub struct Identity {
    pub bytes: [u8; 32],
}

impl PartialEq for Identity {
    /// Two identities are equal where all their bytes are.
    fn eq(&self, other: &Identity) -> (equal: bool) {
        let mut i: usize = 0;
        while i < 32
            invariant
                i <= 32,
                forall|j: int| 0 <= j < i ==> self.bytes[j] == other.bytes[j],
            decreases 32 - i,
        {
            if self.bytes[i] != other.bytes[i] {
                return false;
            }
            i = i + 1;
        }
        assert(self.bytes =~= other.bytes);
        true
    }
}

impl PartialEqSpecImpl for Identity {
    open spec fn obeys_eq_spec() -> bool {
        true
    }

    open spec fn eq_spec(&self, other: &Identity) -> bool {
        *self == *other
    }
}

impl Identity {
    /// The bytes of the identity, as the key under which it signs and checks.
    pub open spec fn key(&self) -> Seq<u8> {
        self.bytes@
    }

    /// Makes the identity with these bytes.
    pub fn new(bytes: [u8; 32]) -> (identity: Identity)
        ensures
            identity.bytes == bytes,
    {
        Identity { bytes }
    }

    /// The bytes of the identity.
    pub fn to_bytes(&self) -> (bytes: [u8; 32])
        ensures
            bytes == self.bytes,
            bytes@ == self.key(),
    {
        self.bytes
    }
}

/// An identity that the host has authenticated as a party to the call. The
/// registry does not authenticate anybody itself: whoever makes this value
/// vouches for it.
#[derive(Clone, Copy, Debug)]
pub struct AuthenticatedIdentity {
    identity: Identity,
}

impl AuthenticatedIdentity {
    /// The identity that was authenticated.
    pub closed spec fn identity(&self) -> Identity {
        self.identity
    }

    /// Vouches for `identity`: to be called where the host has authenticated
    /// it, and nowhere else.
    pub fn new(identity: Identity) -> (authenticated: AuthenticatedIdentity)
        ensures
            authenticated.identity() == identity,
    {
        AuthenticatedIdentity { identity }
    }

    /// The identity that was authenticated.
    pub fn key(&self) -> (identity: Identity)
        ensures
            identity == self.identity(),
    {
        self.identity
    }
}

} // verus!
