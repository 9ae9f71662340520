//! Error kinds surfaced by the instance manager.
//!
//! Precondition violations (`AlreadyExists`, `NotFound`, `InvalidVersion`,
//! `NoPortAvailable`, `AlreadyRunning`, `AlreadyStopped`, `StillRunning`)
//! carry no wrapped cause; `ProcessError` and `StorageError` wrap the failure
//! detail of the external collaborator (the orchestration runtime, or the
//! backing store and its sources) for display.

use vstd::prelude::*;

verus! {

#[derive(Debug)]
pub enum ClientError {
    /// A non-removed record with the same normalized name already exists.
    AlreadyExists,
    /// No record with the given normalized name exists.
    NotFound,
    /// The requested version is not in the allowed-version list.
    InvalidVersion,
    /// Every port of the configured allocation range is taken.
    NoPortAvailable,
    /// The instance is already running (or the system-wide single-instance
    /// policy forbids starting another one).
    AlreadyRunning,
    /// The instance is already stopped.
    AlreadyStopped,
    /// The instance is running and therefore cannot be removed.
    StillRunning,
    /// The external orchestration runtime failed; carries its failure detail.
    ProcessError(String),
    /// A collaborator of the core (backing store, version source, clock)
    /// failed; carries its failure detail.
    StorageError(String),
}

/// The display text of each error kind.
pub open spec fn message_of(e: &ClientError) -> Seq<char> {
    match e {
        ClientError::AlreadyExists => "Ce nom de serveur existe déjà."@,
        ClientError::NotFound => "Ce serveur n'existe pas."@,
        ClientError::InvalidVersion => "Cette version n'est pas une version valide."@,
        ClientError::NoPortAvailable => "Pas de port disponible."@,
        ClientError::AlreadyRunning => "Un serveur est déjà lancé."@,
        ClientError::AlreadyStopped => "Ce serveur est déjà arrêté."@,
        ClientError::StillRunning => "Le serveur est lancé."@,
        ClientError::ProcessError(c) => "Erreur du processus externe: "@ + c@,
        ClientError::StorageError(c) => "Erreur du stockage: "@ + c@,
    }
}

impl ClientError {
    /// A human-readable message for this error, for the front-end to render.
    pub fn message(&self) -> (r: String)
        ensures
            r@ == message_of(self),
    {
        match self {
            ClientError::AlreadyExists => "Ce nom de serveur existe déjà.".to_owned(),
            ClientError::NotFound => "Ce serveur n'existe pas.".to_owned(),
            ClientError::InvalidVersion => "Cette version n'est pas une version valide.".to_owned(),
            ClientError::NoPortAvailable => "Pas de port disponible.".to_owned(),
            ClientError::AlreadyRunning => "Un serveur est déjà lancé.".to_owned(),
            ClientError::AlreadyStopped => "Ce serveur est déjà arrêté.".to_owned(),
            ClientError::StillRunning => "Le serveur est lancé.".to_owned(),
            ClientError::ProcessError(c) => {
                let mut s = "Erreur du processus externe: ".to_owned();
                s.append(c.as_str());
                s
            },
            ClientError::StorageError(c) => {
                let mut s = "Erreur du stockage: ".to_owned();
                s.append(c.as_str());
                s
            },
        }
    }
}

} // verus!
