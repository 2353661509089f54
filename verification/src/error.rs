//! The error kinds reported by the driver.

use vstd::prelude::*;

verus! {

/// Why an operation on a volume failed.
#[derive(Debug, Clone, Copy, PartialEq, Eq, Structural)]
pub enum Fat32Error {
    /// The boot record's signature or geometry is not that of a FAT32 volume.
    InvalidBootSector,
    /// A cluster number below 2, or a reserved value met inside a chain.
    InvalidCluster,
    /// The path is malformed.
    InvalidPath,
    /// A path component or file name is absent.
    NotFound,
    /// The target of a directory operation is not a directory.
    NotADirectory,
    /// The end-of-chain marker was read; the regular way a chain ends.
    EndOfChain,
    /// The device failed to read or write.
    IoError,
    /// A caller supplied a buffer that is too small.
    BufferTooSmall,
    /// A directory record does not have the expected structure.
    InvalidEntry,
}

impl Fat32Error {
    /// The message shown for each error kind.
    pub open spec fn spec_description(self) -> Seq<char> {
        match self {
            Fat32Error::InvalidBootSector => "Boot sector invalide"@,
            Fat32Error::InvalidCluster => "Numéro de cluster invalide"@,
            Fat32Error::InvalidPath => "Chemin invalide"@,
            Fat32Error::NotFound => "Fichier ou dossier non trouvé"@,
            Fat32Error::NotADirectory => "Ce n'est pas un dossier"@,
            Fat32Error::EndOfChain => "Fin de la chaîne"@,
            Fat32Error::IoError => "Erreur d'entrée/sortie"@,
            Fat32Error::BufferTooSmall => "Buffer trop petit"@,
            Fat32Error::InvalidEntry => "Entrée invalide"@,
        }
    }

    /// A short human-readable message for this error.
    pub fn description(&self) -> (text: &'static str)
        ensures
            text@ == self.spec_description(),
    {
        match self {
            Fat32Error::InvalidBootSector => "Boot sector invalide",
            Fat32Error::InvalidCluster => "Numéro de cluster invalide",
            Fat32Error::InvalidPath => "Chemin invalide",
            Fat32Error::NotFound => "Fichier ou dossier non trouvé",
            Fat32Error::NotADirectory => "Ce n'est pas un dossier",
            Fat32Error::EndOfChain => "Fin de la chaîne",
            Fat32Error::IoError => "Erreur d'entrée/sortie",
            Fat32Error::BufferTooSmall => "Buffer trop petit",
            Fat32Error::InvalidEntry => "Entrée invalide",
        }
    }
}

} // verus!
