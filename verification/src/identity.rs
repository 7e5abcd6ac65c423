//! The identity of a node: a key pair that is kept on disk, so that a node stays the same peer
//! from one session to the next.

use crate::primitives;
use crate::primitives::{fresh_identity, read_identity};
use vstd::prelude::*;

verus! {

/// A key pair, in its protobuf encoding, and the text of the peer identifier that it makes.
#[derive(Debug, PartialEq, Eq)]
pub struct Identity {
    pub encoded: Vec<u8>,
    pub peer: String,
}

impl Identity {
    /// The bytes and the text of an identity.
    pub open spec fn parts(self) -> (Seq<u8>, Seq<char>) {
        (self.encoded@, self.peer@)
    }

    /// The peer identifier is that of the key pair.
    pub open spec fn is_valid(self) -> bool {
        primitives::identity_text(self.encoded@) == Ok::<_, Seq<char>>(self.peer@)
    }
}

impl Clone for Identity {
    fn clone(&self) -> (r: Self)
        ensures
            r.parts() == self.parts(),
    {
        let encoded = self.encoded.clone();
        assert(encoded@ =~= self.encoded@);
        Identity { encoded, peer: self.peer.clone() }
    }
}

/// Where the identity of a node comes from.
#[derive(Debug, PartialEq, Eq)]
pub enum IdentityStep {
    /// It was stored.
    Loaded(Identity),
    /// It is new: write its encoding, and report the outcome to `identity_written`.
    Created(Identity),
}

/// Whether `r` is right for what is stored: nothing, bytes, or something that could not be read.
/// What is stored decides; a new identity is made only where nothing is. Bytes that hold no key
/// pair are an error, and so are not replaced.
pub open spec fn is_identity_step(
    stored: Option<Result<Vec<u8>, String>>,
    r: Result<IdentityStep, String>,
) -> bool {
    match stored {
        Some(Ok(bytes)) => match primitives::identity_text(bytes@) {
            Ok(peer) => r matches Ok(IdentityStep::Loaded(identity)) && identity.parts() == (
                bytes@,
                peer,
            ),
            Err(e) => r matches Err(m) && m@ == e,
        },
        Some(Err(e)) => r == Err::<IdentityStep, _>(e),
        None => r matches Ok(IdentityStep::Created(identity)) && identity.is_valid(),
    }
}

/// What stored bytes come to, once they were read: `read` is the text of the peer identifier, or
/// why they hold no key pair.
pub fn stored_identity(encoded: Vec<u8>, read: Result<String, String>) -> (r: Result<
    IdentityStep,
    String,
>)
    ensures
        match read {
            Ok(peer) => r == Ok::<_, String>(IdentityStep::Loaded(Identity { encoded, peer })),
            Err(e) => r == Err::<IdentityStep, _>(e),
        },
{
    match read {
        Ok(peer) => Ok(IdentityStep::Loaded(Identity { encoded, peer })),
        Err(e) => Err(e),
    }
}

/// Loads the identity of a node from what is stored, or makes a new one where nothing is.
pub fn load_or_create_identity(stored: Option<Result<Vec<u8>, String>>) -> (r: Result<
    IdentityStep,
    String,
>)
    ensures
        is_identity_step(stored, r),
{
    match stored {
        Some(Ok(encoded)) => {
            let read = read_identity(encoded.as_slice());
            stored_identity(encoded, read)
        },
        Some(Err(e)) => Err(e),
        None => {
            let encoded = fresh_identity()?;
            let peer = read_identity(encoded.as_slice())?;
            Ok(IdentityStep::Created(Identity { encoded, peer }))
        },
    }
}

/// The identity that a node uses: a new one only once it was written.
pub fn identity_written(identity: Identity, written: Result<(), String>) -> (r: Result<
    Identity,
    String,
>)
    ensures
        match written {
            Ok(()) => r == Ok::<_, String>(identity),
            Err(e) => r == Err::<Identity, _>(e),
        },
{
    match written {
        Ok(()) => Ok(identity),
        Err(e) => Err(e),
    }
}

/// An identity that was made and written comes back the next time, the same key pair and so the
/// same peer. `again` is what `load_or_create_identity` makes of the bytes that were written.
pub proof fn law_a_created_identity_comes_back(
    identity: Identity,
    bytes: Vec<u8>,
    again: Result<IdentityStep, String>,
)
    requires
        is_identity_step(None, Ok(IdentityStep::Created(identity))),
        bytes@ == identity.encoded@,
        is_identity_step(Some(Ok(bytes)), again),
    ensures
        again matches Ok(IdentityStep::Loaded(loaded)) && loaded.parts() == identity.parts(),
{
}

/// A stored identity is the same in every session: whenever the same bytes are loaded, the same
/// comes of them.
pub proof fn law_a_stored_identity_is_stable(
    bytes: Vec<u8>,
    other: Vec<u8>,
    first: Result<IdentityStep, String>,
    second: Result<IdentityStep, String>,
)
    requires
        bytes@ == other@,
        is_identity_step(Some(Ok(bytes)), first),
        is_identity_step(Some(Ok(other)), second),
    ensures
        first is Ok == second is Ok,
        first matches Ok(IdentityStep::Loaded(a)) ==> (second matches Ok(IdentityStep::Loaded(b))
            && a.parts() == b.parts() && a.is_valid()),
{
}

} // verus!
