//! The error taxonomy of the session layer.

use vstd::prelude::*;

verus! {

/// Why a session operation failed.
///
/// `PasswordNotSet` means no key material is cached for the snapshot and the
/// caller must authenticate again; `RecordNotFound` is a read against a
/// missing store location; `StrongholdNotInitialized` is an operation against
/// a snapshot that is not the loaded one where one must be; the remaining
/// variants carry the engine's own failure as a structured cause.
#[derive(Debug)]
pub enum Error {
    StrongholdNotInitialized,
    PasswordNotSet,
    RecordNotFound,
    Stronghold(iota_stronghold::ClientError),
    Memory(iota_stronghold::MemoryError),
    Procedure(iota_stronghold::procedures::ProcedureError),
}

} // verus!
