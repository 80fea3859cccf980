use vstd::prelude::*;

verus! {

/// Why an operation on the registry was refused. A refused operation changes
/// nothing.
#[derive(Clone, Copy, Debug, PartialEq, Eq, Structural)]
pub enum RegistryError {
    /// The store already holds an account for the identity.
    AlreadyExists,
    /// The store holds no account for the identity, or the account holds no
    /// entry with the hash.
    NotFound,
    /// The tag is well-formed, but it is not the tag of the hash under the key.
    InvalidSignature,
    /// The account already holds as many entries as it was provisioned for.
    CapacityExceeded,
    /// The tag is not hexadecimal text.
    MalformedTag,
}

} // verus!
