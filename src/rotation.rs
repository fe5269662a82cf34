use vstd::prelude::*;

use crate::config::{check_options, options_invalid, PruneCondition, RotationCondition, RotationError};
use crate::naming::{
    active_filename, active_name, corrupt_name, filename_to_details, has_dot_prefix, is_rotated_name,
    name_index, path_file_name, path_has_file_name, path_parent, rotated_file_index,
    rotated_filename, rotated_name, rotated_shape,
};

verus! {

/// Bytes in a mebibyte.
pub const BYTES_TO_MB: u64 = 1048576;

/// What the driver could read of the active file before a write: its length
/// and the time since it was created, in nanoseconds; `None` where that could
/// not be read.
#[derive(Clone, Copy, Debug, PartialEq, Eq, Structural)]
pub struct ActiveFileInfo {
    pub len: Option<u64>,
    pub age: Option<u128>,
}

/// A directory entry seen while pruning: its name and the time since it was
/// last modified, in nanoseconds, where that could be read.
#[derive(Debug)]
pub struct DirEntryInfo {
    pub name: String,
    pub age: Option<u128>,
}

/// The next thing the driver of a write does.
#[derive(Debug)]
pub enum WriteStep {
    /// Read the length and age of the active file, and hand them to
    /// `after_inspect`.
    Inspect,
    /// Flush the active file, rename it to this path and open a new active
    /// file; hand the outcome to `after_rotate`.
    Rotate(String),
    /// Append the whole buffer to the active file; then, where asked, prune;
    /// then report the buffer as written.
    Write { prune_after: bool },
    /// List the directory, remove the paths that `prune_targets` names,
    /// ignoring failures; then, where asked, append the whole buffer to the
    /// active file; then report the buffer as written.
    Prune { write_after: bool },
    /// Report this error and write nothing.
    Fail(RotationError),
}

/// What the library holds of a rotating file.
pub struct RotatingView {
    pub root: Seq<char>,
    pub parent: Seq<char>,
    pub rotation: RotationCondition,
    pub prune: PruneCondition,
    pub index: nat,
    pub require_newline: bool,
}

/// The path of the active file.
pub open spec fn active_path(v: RotatingView) -> Seq<char> {
    v.parent + seq!['/'] + active_name(v.root)
}

/// The path of the rotated file with index `i`.
pub open spec fn rotated_path(v: RotatingView, i: nat) -> Seq<char> {
    v.parent + seq!['/'] + rotated_name(v.root, i)
}

/// The largest index that a rotated file name in `names` carries, or 0.
pub open spec fn latest_index(root: Seq<char>, names: Seq<String>) -> nat
    decreases names.len(),
{
    if names.len() == 0 {
        0
    } else {
        let rest = latest_index(root, names.drop_last());
        let n = names.last()@;
        if rotated_shape(root, n) && name_index(root, n) > rest {
            name_index(root, n)
        } else {
            rest
        }
    }
}

/// Some name in `names` has the shape of a rotated file name but an index
/// that cannot be read.
pub open spec fn has_corrupt_index(root: Seq<char>, names: Seq<String>) -> bool {
    exists|j: int| 0 <= j < names.len() && corrupt_name(root, #[trigger] names[j]@)
}

/// Whether a write of `bytes` looks at the rotation condition at all: always,
/// unless rotation waits for a record boundary and `bytes` does not end one.
pub open spec fn checks_rotation(require_newline: bool, bytes: Seq<u8>) -> bool {
    !require_newline || (bytes.len() > 0 && bytes.last() == 10u8)
}

/// Whether the condition asks for a rotation of an active file so described;
/// what could not be read asks for none.
pub open spec fn rotation_due(rotation: RotationCondition, info: ActiveFileInfo) -> bool {
    match rotation {
        RotationCondition::Never => false,
        RotationCondition::SizeMB(n) => info.len is Some && info.len->Some_0 as int > n as int
            * BYTES_TO_MB as int,
        RotationCondition::Duration(d) => info.age is Some && info.age->Some_0 > d,
    }
}

/// Whether the buffer of a write is written after a rotation: a bare newline
/// that ends a record is not.
pub open spec fn writes_after_rotation(require_newline: bool, bytes: Seq<u8>) -> bool {
    !(require_newline && bytes.len() == 1)
}

/// The step that a rotation that succeeded leads to: without record
/// boundaries, prune and then write; with them, write (unless the buffer is a
/// bare newline) and then prune.
pub open spec fn step_after_rotation(require_newline: bool, bytes: Seq<u8>) -> WriteStep {
    if !require_newline {
        WriteStep::Prune { write_after: true }
    } else if writes_after_rotation(require_newline, bytes) {
        WriteStep::Write { prune_after: true }
    } else {
        WriteStep::Prune { write_after: false }
    }
}

/// Whether pruning removes the directory entry `name` with the given age,
/// where the directory holds `count` rotated files.
pub open spec fn prunes(v: RotatingView, count: nat, name: Seq<char>, age: Option<u128>) -> bool {
    rotated_shape(v.root, name) && match v.prune {
        PruneCondition::KeepAll => false,
        PruneCondition::MaxAge(d) => age is Some && age->Some_0 > d,
        PruneCondition::MaxFiles(n) => count >= n && 1 <= name_index(v.root, name) && name_index(
            v.root,
            name,
        ) + n <= v.index + 1 && name == rotated_name(v.root, name_index(v.root, name)),
    }
}

/// The number of rotated file names among `entries`.
pub open spec fn rotated_count(root: Seq<char>, entries: Seq<DirEntryInfo>) -> nat
    decreases entries.len(),
{
    if entries.len() == 0 {
        0
    } else {
        rotated_count(root, entries.drop_last()) + if rotated_shape(root, entries.last().name@) {
            1nat
        } else {
            0nat
        }
    }
}

/// The paths, in the order of `entries`, that pruning removes.
pub open spec fn prune_paths(v: RotatingView, count: nat, entries: Seq<DirEntryInfo>) -> Seq<
    Seq<char>,
>
    decreases entries.len(),
{
    if entries.len() == 0 {
        seq![]
    } else {
        let rest = prune_paths(v, count, entries.drop_last());
        let e = entries.last();
        if prunes(v, count, e.name@, e.age) {
            rest.push(v.parent + seq!['/'] + e.name@)
        } else {
            rest
        }
    }
}

/// The rotation state of one output stream: where its files are, when they
/// rotate and are pruned, and how many rotations it has seen.
#[derive(Debug)]
pub struct RotatingFile {
    filename_root: String,
    parent: String,
    active_file_name: String,
    active_file_path: String,
    rotation_method: RotationCondition,
    prune_method: PruneCondition,
    index: u32,
    require_newline: bool,
}

impl View for RotatingFile {
    type V = RotatingView;

    closed spec fn view(&self) -> RotatingView {
        RotatingView {
            root: self.filename_root@,
            parent: self.parent@,
            rotation: self.rotation_method,
            prune: self.prune_method,
            index: self.index as nat,
            require_newline: self.require_newline,
        }
    }
}

impl RotatingFile {
    /// The names are derived from the root and the parent, and the options
    /// are valid.
    pub closed spec fn wf(&self) -> bool {
        &&& self.active_file_name@ == active_name(self.filename_root@)
        &&& self.active_file_path@ == active_path(self@)
        &&& !options_invalid(self.rotation_method, self.prune_method)
    }

    /// Sets up the rotation of the stream at `path_str`; `listing` holds the
    /// names of the entries of the directory that will hold its files.
    pub fn new(
        path_str: &str,
        rotation_method: RotationCondition,
        prune_method: PruneCondition,
        require_newline: bool,
        listing: &Vec<String>,
    ) -> (r: Result<RotatingFile, RotationError>)
        ensures
            options_invalid(rotation_method, prune_method) ==> r == Err::<
                RotatingFile,
                RotationError,
            >(RotationError::ConfigInvalid),
            !options_invalid(rotation_method, prune_method) && !path_has_file_name(path_str@)
                ==> r == Err::<RotatingFile, RotationError>(RotationError::PathInvalid),
            !options_invalid(rotation_method, prune_method) && path_has_file_name(path_str@)
                && has_corrupt_index(path_file_name(path_str@), listing@) ==> r == Err::<
                RotatingFile,
                RotationError,
            >(RotationError::CorruptIndex),
            !options_invalid(rotation_method, prune_method) && path_has_file_name(path_str@)
                && !has_corrupt_index(path_file_name(path_str@), listing@) ==> r is Ok,
            r matches Ok(f) ==> f.wf() && f@ == (RotatingView {
                root: path_file_name(path_str@),
                parent: path_parent(path_str@),
                rotation: rotation_method,
                prune: prune_method,
                index: latest_index(path_file_name(path_str@), listing@),
                require_newline,
            }),
    {
        if check_options(&rotation_method, &prune_method).is_err() {
            return Err(RotationError::ConfigInvalid);
        }
        let (filename_root, parent) = match filename_to_details(path_str) {
            Ok(details) => details,
            Err(e) => return Err(e),
        };
        let index = match detect_latest_file_index(filename_root.as_str(), listing) {
            Ok(i) => i,
            Err(e) => return Err(e),
        };
        let active_file_name = active_filename(filename_root.as_str());
        let mut active_file_path = parent.clone();
        proof { reveal_strlit("/"); }
        active_file_path.append("/");
        active_file_path.append(active_file_name.as_str());
        let f = RotatingFile {
            filename_root,
            parent,
            active_file_name,
            active_file_path,
            rotation_method,
            prune_method,
            index,
            require_newline,
        };
        assert(f.active_file_path@ =~= active_path(f@));
        Ok(f)
    }

    /// The number of rotations this stream has seen.
    pub fn index(&self) -> (r: u32)
        ensures
            r as nat == self@.index,
    {
        self.index
    }

    /// The path of the active file.
    pub fn current_file_path_str(&self) -> (r: &str)
        requires
            self.wf(),
        ensures
            r@ == active_path(self@),
    {
        self.active_file_path.as_str()
    }

    /// The directory that holds the files of the stream.
    pub fn directory_str(&self) -> (r: &str)
        ensures
            r@ == self@.parent,
    {
        self.parent.as_str()
    }

    /// The name of the active file.
    pub fn current_file_name_str(&self) -> (r: &str)
        requires
            self.wf(),
        ensures
            r@ == active_name(self@.root),
    {
        self.active_file_name.as_str()
    }

    /// Whether the rotation condition asks for a rotation of the active file.
    pub fn rotation_required(&self, info: &ActiveFileInfo) -> (r: bool)
        ensures
            r == rotation_due(self@.rotation, *info),
    {
        match self.rotation_method {
            RotationCondition::Never => false,
            RotationCondition::SizeMB(n) => match info.len {
                Some(len) => {
                    proof {
                        assert(n as int * BYTES_TO_MB as int <= u64::MAX as int * 1048576)
                            by (nonlinear_arith)
                            requires
                                n <= u64::MAX,
                                BYTES_TO_MB == 1048576,
                        ;
                    }
                    (len as u128) > (n as u128) * (BYTES_TO_MB as u128)
                },
                None => false,
            },
            RotationCondition::Duration(d) => match info.age {
                Some(age) => age > d,
                None => false,
            },
        }
    }

    /// The first step of a write of `bytes`.
    pub fn begin_write(&self, bytes: &[u8]) -> (r: WriteStep)
        ensures
            checks_rotation(self@.require_newline, bytes@) ==> r == WriteStep::Inspect,
            !checks_rotation(self@.require_newline, bytes@) ==> r == (WriteStep::Write {
                prune_after: false,
            }),
    {
        if !self.require_newline {
            return WriteStep::Inspect;
        }
        let n = bytes.len();
        if n > 0 && bytes[n - 1] == 10u8 {
            WriteStep::Inspect
        } else {
            WriteStep::Write { prune_after: false }
        }
    }

    /// The step of a write after the active file was inspected: a rotation
    /// to the next index where one is due and the index can grow.
    pub fn after_inspect(&self, info: &ActiveFileInfo) -> (r: WriteStep)
        requires
            self.wf(),
        ensures
            !rotation_due(self@.rotation, *info) ==> r == (WriteStep::Write {
                prune_after: false,
            }),
            rotation_due(self@.rotation, *info) && self@.index < u32::MAX ==> r is Rotate
                && r->Rotate_0@ == rotated_path(self@, self@.index + 1),
            rotation_due(self@.rotation, *info) && self@.index >= u32::MAX ==> r == WriteStep::Fail(
                RotationError::RotationFailed,
            ),
    {
        if !self.rotation_required(info) {
            return WriteStep::Write { prune_after: false };
        }
        if self.index == u32::MAX {
            return WriteStep::Fail(RotationError::RotationFailed);
        }
        WriteStep::Rotate(self.rotated_file_path(self.index + 1))
    }

    /// The path of the rotated file with index `i`.
    fn rotated_file_path(&self, i: u32) -> (r: String)
        ensures
            r@ == rotated_path(self@, i as nat),
    {
        let mut p = self.parent.clone();
        proof { reveal_strlit("/"); }
        p.append("/");
        let name = rotated_filename(self.filename_root.as_str(), i);
        p.append(name.as_str());
        assert(p@ =~= rotated_path(self@, i as nat));
        p
    }

    /// Takes in whether the active file was handed off to the next index; on
    /// success the index grows by one, else nothing changes and the write
    /// fails.
    pub fn after_rotate(&mut self, bytes: &[u8], rotated: bool) -> (r: WriteStep)
        requires
            old(self).wf(),
        ensures
            final(self).wf(),
            !rotated || old(self)@.index >= u32::MAX ==> final(self)@ == old(self)@ && r
                == WriteStep::Fail(RotationError::RotationFailed),
            rotated && old(self)@.index < u32::MAX ==> final(self)@ == (RotatingView {
                index: old(self)@.index + 1,
                ..old(self)@
            }) && r == step_after_rotation(old(self)@.require_newline, bytes@),
    {
        if !rotated || self.index == u32::MAX {
            return WriteStep::Fail(RotationError::RotationFailed);
        }
        self.index = self.index + 1;
        if !self.require_newline {
            WriteStep::Prune { write_after: true }
        } else if bytes.len() != 1 {
            WriteStep::Write { prune_after: true }
        } else {
            WriteStep::Prune { write_after: false }
        }
    }

    /// Whether pruning removes `e`, where the directory holds `count` rotated
    /// files.
    fn prunes_entry(&self, count: usize, e: &DirEntryInfo) -> (r: bool)
        requires
            self.wf(),
        ensures
            r == prunes(self@, count as nat, e.name@, e.age),
    {
        let root = self.filename_root.as_str();
        if !is_rotated_name(root, e.name.as_str()) {
            return false;
        }
        match self.prune_method {
            PruneCondition::KeepAll => false,
            PruneCondition::MaxAge(d) => match e.age {
                Some(age) => age > d,
                None => false,
            },
            PruneCondition::MaxFiles(n) => {
                if count < n {
                    return false;
                }
                match rotated_file_index(root, e.name.as_str()) {
                    None => false,
                    Some(i) => {
                        if i < 1 || (i as u128) + (n as u128) > (self.index as u128) + 1 {
                            false
                        } else {
                            let canonical = rotated_filename(root, i);
                            canonical == e.name
                        }
                    },
                }
            },
        }
    }

    /// The paths of the rotated files in `entries`, the directory's listing,
    /// that the prune condition removes.
    pub fn prune_targets(&self, entries: &Vec<DirEntryInfo>) -> (r: Vec<String>)
        requires
            self.wf(),
        ensures
            r@.map_values(|p: String| p@) == prune_paths(
                self@,
                rotated_count(self@.root, entries@),
                entries@,
            ),
    {
        let root = self.filename_root.as_str();
        let mut count: usize = 0;
        let mut i: usize = 0;
        while i < entries.len()
            invariant
                i <= entries@.len(),
                count <= i,
                count as nat == rotated_count(self@.root, entries@.subrange(0, i as int)),
                root@ == self@.root,
            decreases entries@.len() - i,
        {
            assert(entries@.subrange(0, i as int + 1).drop_last() =~= entries@.subrange(
                0,
                i as int,
            ));
            if is_rotated_name(root, entries[i].name.as_str()) {
                count = count + 1;
            }
            i = i + 1;
        }
        assert(entries@.subrange(0, i as int) =~= entries@);
        let mut targets: Vec<String> = Vec::new();
        let mut k: usize = 0;
        while k < entries.len()
            invariant
                self.wf(),
                k <= entries@.len(),
                count as nat == rotated_count(self@.root, entries@),
                targets@.map_values(|p: String| p@) == prune_paths(
                    self@,
                    count as nat,
                    entries@.subrange(0, k as int),
                ),
            decreases entries@.len() - k,
        {
            let ghost before = targets@;
            assert(entries@.subrange(0, k as int + 1).drop_last() =~= entries@.subrange(
                0,
                k as int,
            ));
            let e = &entries[k];
            if self.prunes_entry(count, e) {
                let mut path = self.parent.clone();
                proof { reveal_strlit("/"); }
                path.append("/");
                path.append(e.name.as_str());
                assert(path@ =~= self@.parent + seq!['/'] + e.name@);
                targets.push(path);
                assert(targets@ == before.push(path));
                assert(targets@.map_values(|p: String| p@) =~= before.map_values(|p: String| p@).push(
                    self@.parent + seq!['/'] + e.name@,
                ));
            }
            k = k + 1;
        }
        assert(entries@.subrange(0, k as int) =~= entries@);
        targets
    }
}

/// The largest index that a rotated file name in `listing` carries, or 0.
pub fn detect_latest_file_index(root: &str, listing: &Vec<String>) -> (r: Result<u32, RotationError>)
    ensures
        r is Err <==> has_corrupt_index(root@, listing@),
        r is Err ==> r == Err::<u32, RotationError>(RotationError::CorruptIndex),
        r matches Ok(i) ==> i as nat == latest_index(root@, listing@),
{
    let mut max_index: u32 = 0;
    let mut i: usize = 0;
    while i < listing.len()
        invariant
            i <= listing@.len(),
            max_index as nat == latest_index(root@, listing@.subrange(0, i as int)),
            !has_corrupt_index(root@, listing@.subrange(0, i as int)),
        decreases listing@.len() - i,
    {
        let ghost prefix = listing@.subrange(0, i as int + 1);
        assert(prefix.drop_last() =~= listing@.subrange(0, i as int));
        let name = listing[i].as_str();
        if has_dot_prefix(root, name) {
            if name.unicode_len() == root.unicode_len() + 1 {
                assert(name@ =~= root@ + seq!['.']);
                assert(corrupt_name(root@, listing@[i as int]@));
                return Err(RotationError::CorruptIndex);
            }
            if is_rotated_name(root, name) {
                match rotated_file_index(root, name) {
                    Some(v) => {
                        if v > max_index {
                            max_index = v;
                        }
                    },
                    None => {
                        assert(corrupt_name(root@, listing@[i as int]@));
                        return Err(RotationError::CorruptIndex);
                    },
                }
            }
        } else {
            assert((root@ + seq!['.']).subrange(0, root@.len() as int) =~= root@);
        }
        proof {
            assert forall|j: int| 0 <= j < prefix.len() implies !corrupt_name(
                root@,
                #[trigger] prefix[j]@,
            ) by {
                if j < i {
                    assert(prefix[j] == listing@.subrange(0, i as int)[j]);
                }
            }
        }
        i = i + 1;
    }
    assert(listing@.subrange(0, i as int) =~= listing@);
    Ok(max_index)
}

} // verus!
