use vstd::prelude::*;

verus! {

/// When the active file is handed off to a rotated file.
#[derive(Clone, Copy, Debug, PartialEq, Eq, Structural)]
pub enum RotationCondition {
    /// Never rotate.
    Never,
    /// Rotate once the active file holds more than this many mebibytes.
    SizeMB(u64),
    /// Rotate once the active file is older than this many nanoseconds.
    Duration(u128),
}

/// Which rotated files are removed after a rotation.
#[derive(Clone, Copy, Debug, PartialEq, Eq, Structural)]
pub enum PruneCondition {
    /// Keep every rotated file.
    KeepAll,
    /// Keep at most this many files, the active file included.
    MaxFiles(usize),
    /// Remove rotated files last modified more than this many nanoseconds ago.
    MaxAge(u128),
}

/// The errors that construction and rotation report.
#[derive(Clone, Copy, Debug, PartialEq, Eq, Structural)]
pub enum RotationError {
    /// A zero size threshold or a zero file count.
    ConfigInvalid,
    /// No file name or parent directory can be taken from the path.
    PathInvalid,
    /// A name of the shape of a rotated file name whose index cannot be read:
    /// nothing after the dot, or an index that does not fit the index type.
    CorruptIndex,
    /// The active file could not be handed off to its rotated name.
    RotationFailed,
}

/// The options that construction rejects.
pub open spec fn options_invalid(rotation: RotationCondition, prune: PruneCondition) -> bool {
    rotation == RotationCondition::SizeMB(0) || prune == PruneCondition::MaxFiles(0)
}

/// Rejects a zero size threshold and a zero file count.
pub fn check_options(rotation: &RotationCondition, prune: &PruneCondition) -> (r: Result<
    (),
    RotationError,
>)
    ensures
        r is Err <==> options_invalid(*rotation, *prune),
        r is Err ==> r == Err::<(), RotationError>(RotationError::ConfigInvalid),
{
    if let RotationCondition::SizeMB(0) = rotation {
        return Err(RotationError::ConfigInvalid);
    }
    if let PruneCondition::MaxFiles(0) = prune {
        return Err(RotationError::ConfigInvalid);
    }
    Ok(())
}

} // verus!
