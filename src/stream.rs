use vstd::prelude::*;

use crate::naming::{
    active_name, decimal, lemma_decimal, lemma_decimal_injective, lemma_rotated_name, name_index,
    rotated_name, rotated_shape,
};
use crate::config::PruneCondition;
use crate::rotation::{
    active_path, checks_rotation, prune_paths, prunes, rotated_count, DirEntryInfo, has_corrupt_index, latest_index, rotated_path, RotatingView,
    writes_after_rotation,
};

verus! {

/// What a directory holds: the bytes of each file, by path.
pub open spec fn file_of(fs: Map<Seq<char>, Seq<u8>>, p: Seq<char>) -> Seq<u8> {
    if fs.contains_key(p) {
        fs[p]
    } else {
        seq![]
    }
}

/// The directory after the file at `from` is renamed to `to` and a new,
/// empty file is opened at `from`.
pub open spec fn rotate_on_disk(fs: Map<Seq<char>, Seq<u8>>, from: Seq<char>, to: Seq<char>) -> Map<
    Seq<char>,
    Seq<u8>,
> {
    fs.insert(to, file_of(fs, from)).insert(from, seq![])
}

/// The directory after `bytes` are appended to the file at `p`.
pub open spec fn append_on_disk(fs: Map<Seq<char>, Seq<u8>>, p: Seq<char>, bytes: Seq<u8>) -> Map<
    Seq<char>,
    Seq<u8>,
> {
    fs.insert(p, file_of(fs, p) + bytes)
}

/// Whether a write of `bytes` rotates, where the rotation condition answers
/// `due`.
pub open spec fn rotates(v: RotatingView, bytes: Seq<u8>, due: bool) -> bool {
    checks_rotation(v.require_newline, bytes) && due && v.index < u32::MAX
}

/// The directory after a write of `bytes` whose file operations succeed, as
/// the steps of `RotatingFile` lay it out; `due` is the answer of the
/// rotation condition where it is asked. A rotation that the index cannot
/// number fails the write, which then changes nothing.
pub open spec fn write_on_disk(
    v: RotatingView,
    fs: Map<Seq<char>, Seq<u8>>,
    bytes: Seq<u8>,
    due: bool,
) -> Map<Seq<char>, Seq<u8>> {
    if checks_rotation(v.require_newline, bytes) && due {
        if v.index < u32::MAX {
            let fs1 = rotate_on_disk(fs, active_path(v), rotated_path(v, v.index + 1));
            if writes_after_rotation(v.require_newline, bytes) {
                append_on_disk(fs1, active_path(v), bytes)
            } else {
                fs1
            }
        } else {
            fs
        }
    } else {
        append_on_disk(fs, active_path(v), bytes)
    }
}

/// The state after a write of `bytes`.
pub open spec fn view_after_write(v: RotatingView, bytes: Seq<u8>, due: bool) -> RotatingView {
    if rotates(v, bytes, due) {
        RotatingView { index: v.index + 1, ..v }
    } else {
        v
    }
}

/// The rotated files with indices 1 to `k`, joined in ascending order.
pub open spec fn rotated_stream(v: RotatingView, fs: Map<Seq<char>, Seq<u8>>, k: nat) -> Seq<u8>
    decreases k,
{
    if k == 0 {
        seq![]
    } else {
        rotated_stream(v, fs, (k - 1) as nat) + file_of(fs, rotated_path(v, k))
    }
}

/// The whole stream: the rotated files in ascending order, then the active
/// file.
pub open spec fn stream(v: RotatingView, fs: Map<Seq<char>, Seq<u8>>) -> Seq<u8> {
    rotated_stream(v, fs, v.index) + file_of(fs, active_path(v))
}

/// A rotated file never has the path of the active file.
pub proof fn lemma_rotated_not_active(v: RotatingView, i: nat)
    ensures
        rotated_path(v, i) != active_path(v),
{
    reveal_strlit(".ACTIVE");
    lemma_decimal(i);
    let at = v.parent.len() as int + 1 + v.root.len() + 1;
    assert(rotated_path(v, i)[at] == decimal(i)[0]);
    assert(active_path(v)[at] == 'A');
}

/// Rotated files with different indices have different paths.
pub proof fn lemma_rotated_distinct(v: RotatingView, i: nat, j: nat)
    requires
        i != j,
    ensures
        rotated_path(v, i) != rotated_path(v, j),
{
    if rotated_path(v, i) == rotated_path(v, j) {
        let start = v.parent.len() as int + 1 + v.root.len() + 1;
        let pi = rotated_path(v, i);
        let pj = rotated_path(v, j);
        assert(pi.subrange(start, pi.len() as int) =~= decimal(i));
        assert(pj.subrange(start, pj.len() as int) =~= decimal(j));
        lemma_decimal_injective(i, j);
    }
}

proof fn lemma_rotated_stream_frame(
    v: RotatingView,
    fs: Map<Seq<char>, Seq<u8>>,
    gs: Map<Seq<char>, Seq<u8>>,
    k: nat,
)
    requires
        forall|i: nat| 1 <= i <= k ==> file_of(gs, #[trigger] rotated_path(v, i)) == file_of(
            fs,
            rotated_path(v, i),
        ),
    ensures
        rotated_stream(v, gs, k) == rotated_stream(v, fs, k),
    decreases k,
{
    if k > 0 {
        lemma_rotated_stream_frame(v, fs, gs, (k - 1) as nat);
        assert(file_of(gs, rotated_path(v, k)) == file_of(fs, rotated_path(v, k)));
    }
}

proof fn lemma_rotated_stream_same_names(
    v: RotatingView,
    w: RotatingView,
    fs: Map<Seq<char>, Seq<u8>>,
    k: nat,
)
    requires
        w.parent == v.parent,
        w.root == v.root,
    ensures
        rotated_stream(w, fs, k) == rotated_stream(v, fs, k),
    decreases k,
{
    if k > 0 {
        lemma_rotated_stream_same_names(v, w, fs, (k - 1) as nat);
    }
}

/// No data is lost on rotation: after a write that succeeds, the rotated
/// files in ascending order followed by the active file hold what they held
/// before, followed by the bytes written. The one exception is a bare newline
/// that ends a record at a rotation, which is not written.
pub proof fn lemma_no_data_loss(
    v: RotatingView,
    fs: Map<Seq<char>, Seq<u8>>,
    bytes: Seq<u8>,
    due: bool,
)
    requires
        v.index < u32::MAX,
        !(v.require_newline && due && bytes == seq![10u8]),
    ensures
        stream(view_after_write(v, bytes, due), write_on_disk(v, fs, bytes, due)) == stream(v, fs)
            + bytes,
{
    let a = active_path(v);
    let gs = write_on_disk(v, fs, bytes, due);
    let w = view_after_write(v, bytes, due);
    assert forall|i: nat| 1 <= i <= v.index implies file_of(gs, #[trigger] rotated_path(v, i))
        == file_of(fs, rotated_path(v, i)) by {
        lemma_rotated_not_active(v, i);
        lemma_rotated_distinct(v, i, v.index + 1);
    }
    lemma_rotated_stream_frame(v, fs, gs, v.index);
    if rotates(v, bytes, due) {
        lemma_rotated_not_active(v, v.index + 1);
        assert(bytes.len() != 1 || !v.require_newline) by {
            if bytes.len() == 1 && v.require_newline {
                assert(bytes =~= seq![10u8]);
            }
        }
        assert(w.index == v.index + 1);
        lemma_rotated_stream_same_names(v, w, gs, w.index);
        assert(rotated_stream(w, gs, w.index) == rotated_stream(v, gs, v.index) + file_of(
            gs,
            rotated_path(v, v.index + 1),
        ));
        assert(file_of(gs, a) == bytes);
        assert(stream(w, gs) =~= stream(v, fs) + bytes);
    } else {
        assert(file_of(gs, a) == file_of(fs, a) + bytes);
        assert(stream(w, gs) =~= stream(v, fs) + bytes);
    }
}

/// With rotation at record boundaries, a write that does not end in a
/// newline never rotates, whatever the rotation condition answers. A record
/// written as such a piece and then a bare newline stays whole in one file:
/// where the newline finds a rotation due, exactly one rotation hands the
/// file that holds the piece off to the next index and the newline is not
/// written; otherwise the newline follows the piece in the active file.
pub proof fn lemma_record_stays_whole(
    v: RotatingView,
    fs: Map<Seq<char>, Seq<u8>>,
    piece: Seq<u8>,
    due1: bool,
    due2: bool,
)
    requires
        v.require_newline,
        v.index < u32::MAX,
        piece.len() > 0 ==> piece.last() != 10u8,
    ensures
        view_after_write(v, piece, due1) == v,
        write_on_disk(v, fs, piece, due1) == append_on_disk(fs, active_path(v), piece),
        due2 ==> view_after_write(v, seq![10u8], due2).index == v.index + 1,
        due2 ==> file_of(
            write_on_disk(v, write_on_disk(v, fs, piece, due1), seq![10u8], due2),
            rotated_path(v, v.index + 1),
        ) == file_of(fs, active_path(v)) + piece,
        due2 ==> file_of(
            write_on_disk(v, write_on_disk(v, fs, piece, due1), seq![10u8], due2),
            active_path(v),
        ) == Seq::<u8>::empty(),
        !due2 ==> file_of(
            write_on_disk(v, write_on_disk(v, fs, piece, due1), seq![10u8], due2),
            active_path(v),
        ) == file_of(fs, active_path(v)) + piece + seq![10u8],
{
    lemma_rotated_not_active(v, v.index + 1);
    assert(!checks_rotation(v.require_newline, piece));
    assert(checks_rotation(v.require_newline, seq![10u8]));
}

/// The state and the directory after the writes `writes`, in order, where
/// the rotation condition answers `dues[i]` to the write `writes[i]`.
pub open spec fn run_writes(
    v: RotatingView,
    fs: Map<Seq<char>, Seq<u8>>,
    writes: Seq<Seq<u8>>,
    dues: Seq<bool>,
) -> (RotatingView, Map<Seq<char>, Seq<u8>>)
    decreases writes.len(),
{
    if writes.len() == 0 || dues.len() == 0 {
        (v, fs)
    } else {
        let (v1, fs1) = run_writes(v, fs, writes.drop_last(), dues.drop_last());
        (
            view_after_write(v1, writes.last(), dues.last()),
            write_on_disk(v1, fs1, writes.last(), dues.last()),
        )
    }
}

/// How many of the writes `writes` rotate.
pub open spec fn rotation_count(
    v: RotatingView,
    fs: Map<Seq<char>, Seq<u8>>,
    writes: Seq<Seq<u8>>,
    dues: Seq<bool>,
) -> nat
    decreases writes.len(),
{
    if writes.len() == 0 || dues.len() == 0 {
        0
    } else {
        let v1 = run_writes(v, fs, writes.drop_last(), dues.drop_last()).0;
        rotation_count(v, fs, writes.drop_last(), dues.drop_last()) + if rotates(
            v1,
            writes.last(),
            dues.last(),
        ) {
            1nat
        } else {
            0nat
        }
    }
}

/// The writes joined in order.
pub open spec fn joined(writes: Seq<Seq<u8>>) -> Seq<u8>
    decreases writes.len(),
{
    if writes.len() == 0 {
        seq![]
    } else {
        joined(writes.drop_last()) + writes.last()
    }
}

/// Over any sequence of writes the index never decreases: it ends up grown
/// by exactly the number of writes that rotated, and only the index changes.
pub proof fn lemma_index_counts_rotations(
    v: RotatingView,
    fs: Map<Seq<char>, Seq<u8>>,
    writes: Seq<Seq<u8>>,
    dues: Seq<bool>,
)
    requires
        writes.len() == dues.len(),
    ensures
        run_writes(v, fs, writes, dues).0 == (RotatingView {
            index: v.index + rotation_count(v, fs, writes, dues),
            ..v
        }),
        run_writes(v, fs, writes, dues).0.index >= v.index,
        rotation_count(v, fs, writes, dues) <= writes.len(),
    decreases writes.len(),
{
    if writes.len() > 0 {
        lemma_index_counts_rotations(v, fs, writes.drop_last(), dues.drop_last());
    }
}

/// No data is lost over any sequence of writes that succeed: the rotated
/// files in ascending order followed by the active file hold what they held
/// before, followed by every byte written, in order. A bare newline that
/// ends a record at a rotation is not written, so the writes leave that case
/// out.
pub proof fn lemma_no_data_loss_over_writes(
    v: RotatingView,
    fs: Map<Seq<char>, Seq<u8>>,
    writes: Seq<Seq<u8>>,
    dues: Seq<bool>,
)
    requires
        writes.len() == dues.len(),
        v.index + writes.len() <= u32::MAX,
        forall|i: int|
            0 <= i < writes.len() ==> !(v.require_newline && #[trigger] dues[i] && writes[i]
                == seq![10u8]),
    ensures
        stream(run_writes(v, fs, writes, dues).0, run_writes(v, fs, writes, dues).1) == stream(
            v,
            fs,
        ) + joined(writes),
    decreases writes.len(),
{
    if writes.len() == 0 {
        assert(stream(v, fs) + joined(writes) =~= stream(v, fs));
    } else {
        let ws = writes.drop_last();
        let ds = dues.drop_last();
        assert forall|i: int| 0 <= i < ws.len() implies !(v.require_newline && #[trigger] ds[i]
            && ws[i] == seq![10u8]) by {
            assert(ds[i] == dues[i] && ws[i] == writes[i]);
        }
        lemma_no_data_loss_over_writes(v, fs, ws, ds);
        lemma_index_counts_rotations(v, fs, ws, ds);
        let (v1, fs1) = run_writes(v, fs, ws, ds);
        assert(dues.last() == dues[writes.len() - 1]);
        lemma_no_data_loss(v1, fs1, writes.last(), dues.last());
        assert(stream(v, fs) + joined(ws) + writes.last() =~= stream(v, fs) + joined(writes));
    }
}

/// With rotation at record boundaries, a write that ends a record while a
/// rotation is due rotates exactly once: the old active file, whole, becomes
/// the file with the next index, and the new active file holds the buffer,
/// or nothing where the buffer is a bare newline.
pub proof fn lemma_boundary_write_rotates_once(
    v: RotatingView,
    fs: Map<Seq<char>, Seq<u8>>,
    bytes: Seq<u8>,
)
    requires
        v.require_newline,
        v.index < u32::MAX,
        bytes.len() > 0,
        bytes.last() == 10u8,
    ensures
        view_after_write(v, bytes, true).index == v.index + 1,
        file_of(write_on_disk(v, fs, bytes, true), rotated_path(v, v.index + 1)) == file_of(
            fs,
            active_path(v),
        ),
        file_of(write_on_disk(v, fs, bytes, true), active_path(v)) == if bytes.len() == 1 {
            Seq::<u8>::empty()
        } else {
            bytes
        },
{
    lemma_rotated_not_active(v, v.index + 1);
    assert(Seq::<u8>::empty() + bytes =~= bytes);
}

/// The largest index among the rotated names of `names` is no smaller than
/// any of them, and is one of them unless it is 0.
proof fn lemma_latest_index(root: Seq<char>, names: Seq<String>)
    ensures
        forall|j: int|
            0 <= j < names.len() && rotated_shape(root, #[trigger] names[j]@) ==> name_index(
                root,
                names[j]@,
            ) <= latest_index(root, names),
        latest_index(root, names) == 0 || exists|j: int|
            0 <= j < names.len() && rotated_shape(root, #[trigger] names[j]@) && name_index(
                root,
                names[j]@,
            ) == latest_index(root, names),
    decreases names.len(),
{
    if names.len() > 0 {
        let rest = names.drop_last();
        lemma_latest_index(root, rest);
        assert forall|j: int|
            0 <= j < names.len() && rotated_shape(root, #[trigger] names[j]@) implies name_index(
            root,
            names[j]@,
        ) <= latest_index(root, names) by {
            if j < names.len() - 1 {
                assert(names[j] == rest[j]);
            }
        }
        if latest_index(root, names) != 0 {
            if latest_index(root, names) == latest_index(root, rest) {
                let j = choose|j: int|
                    0 <= j < rest.len() && rotated_shape(root, #[trigger] rest[j]@) && name_index(
                        root,
                        rest[j]@,
                    ) == latest_index(root, rest);
                assert(names[j] == rest[j]);
            } else {
                assert(rotated_shape(root, names[names.len() - 1]@));
            }
        }
    }
}

/// Restart recovery: a directory whose rotated files reach index `k`, the
/// file with that index among them, and which holds no name that ends in a
/// bare dot after the root, gives back index `k`, so the rotations
/// that follow go on from `k + 1`.
pub proof fn lemma_restart_recovers_index(root: Seq<char>, listing: Seq<String>, k: nat)
    requires
        k <= u32::MAX,
        k == 0 || exists|j: int| 0 <= j < listing.len() && #[trigger] listing[j]@ == rotated_name(root, k),
        forall|j: int|
            0 <= j < listing.len() && rotated_shape(root, #[trigger] listing[j]@) ==> name_index(
                root,
                listing[j]@,
            ) <= k,
        forall|j: int| 0 <= j < listing.len() ==> #[trigger] listing[j]@ != root + seq!['.'],
    ensures
        !has_corrupt_index(root, listing),
        latest_index(root, listing) == k,
{
    lemma_latest_index(root, listing);
    lemma_rotated_name(root, k);
    if k != 0 {
        let j = choose|j: int| 0 <= j < listing.len() && #[trigger] listing[j]@ == rotated_name(root, k);
        assert(name_index(root, listing[j]@) <= latest_index(root, listing));
    }
}

proof fn lemma_prune_paths_members(v: RotatingView, count: nat, entries: Seq<DirEntryInfo>, p: Seq<char>)
    ensures
        prune_paths(v, count, entries).contains(p) <==> exists|j: int|
            0 <= j < entries.len() && prunes(v, count, #[trigger] entries[j].name@, entries[j].age)
                && p == v.parent + seq!['/'] + entries[j].name@,
    decreases entries.len(),
{
    if entries.len() > 0 {
        let rest = entries.drop_last();
        lemma_prune_paths_members(v, count, rest, p);
        if prune_paths(v, count, entries).contains(p) {
            if !prune_paths(v, count, rest).contains(p) {
                let last = entries.len() - 1;
                assert(prunes(v, count, entries[last].name@, entries[last].age));
            } else {
                let j = choose|j: int|
                    0 <= j < rest.len() && prunes(v, count, #[trigger] rest[j].name@, rest[j].age)
                        && p == v.parent + seq!['/'] + rest[j].name@;
                assert(entries[j] == rest[j]);
            }
        }
        if exists|j: int|
            0 <= j < entries.len() && prunes(v, count, #[trigger] entries[j].name@, entries[j].age)
                && p == v.parent + seq!['/'] + entries[j].name@ {
            let j = choose|j: int|
                0 <= j < entries.len() && prunes(v, count, #[trigger] entries[j].name@, entries[j].age)
                    && p == v.parent + seq!['/'] + entries[j].name@;
            if j < rest.len() {
                assert(rest[j] == entries[j]);
                assert(prune_paths(v, count, rest).contains(p));
                let k = choose|k: int| 0 <= k < prune_paths(v, count, rest).len() && prune_paths(v, count, rest)[k] == p;
                assert(prune_paths(v, count, entries)[k] == p);
            } else {
                assert(prune_paths(v, count, entries).last() == p);
            }
        }
    }
}

/// Pruning by count, right after a rotation that brought the index to
/// `v.index`: where the directory holds at least `n` rotated files, a
/// rotated file that it holds is removed exactly when its index is at most
/// `v.index + 1 - n`, so the `n - 1` newest stay beside the active file; the
/// active file is never removed; and while fewer than `n` rotated files
/// exist nothing is removed.
pub proof fn lemma_prune_by_count(v: RotatingView, entries: Seq<DirEntryInfo>, n: usize, i: nat)
    requires
        v.prune == PruneCondition::MaxFiles(n),
        n >= 1,
    ensures
        rotated_count(v.root, entries) >= n && 1 <= i && (exists|j: int|
            0 <= j < entries.len() && #[trigger] entries[j].name@ == rotated_name(v.root, i))
            ==> (prune_paths(v, rotated_count(v.root, entries), entries).contains(
            rotated_path(v, i),
        ) <==> i + n <= v.index + 1),
        !prune_paths(v, rotated_count(v.root, entries), entries).contains(active_path(v)),
        rotated_count(v.root, entries) < n ==> prune_paths(
            v,
            rotated_count(v.root, entries),
            entries,
        ).len() == 0,
{
    let count = rotated_count(v.root, entries);
    let pre = v.parent + seq!['/'];
    lemma_rotated_name(v.root, i);
    lemma_prune_paths_members(v, count, entries, rotated_path(v, i));
    lemma_prune_paths_members(v, count, entries, active_path(v));
    if count >= n && 1 <= i && (exists|j: int|
        0 <= j < entries.len() && #[trigger] entries[j].name@ == rotated_name(v.root, i)) {
        if i + n <= v.index + 1 {
            let j = choose|j: int|
                0 <= j < entries.len() && #[trigger] entries[j].name@ == rotated_name(v.root, i);
            assert(prunes(v, count, entries[j].name@, entries[j].age));
        }
        if prune_paths(v, count, entries).contains(rotated_path(v, i)) {
            let j = choose|j: int|
                0 <= j < entries.len() && prunes(v, count, #[trigger] entries[j].name@, entries[j].age)
                    && rotated_path(v, i) == pre + entries[j].name@;
            assert((pre + entries[j].name@).subrange(pre.len() as int, (pre + entries[j].name@).len() as int) =~= entries[j].name@);
            assert(rotated_path(v, i).subrange(pre.len() as int, rotated_path(v, i).len() as int) =~= rotated_name(v.root, i));
        }
    }
    if prune_paths(v, count, entries).contains(active_path(v)) {
        let j = choose|j: int|
            0 <= j < entries.len() && prunes(v, count, #[trigger] entries[j].name@, entries[j].age)
                && active_path(v) == pre + entries[j].name@;
        let name = entries[j].name@;
        assert((pre + name).subrange(pre.len() as int, (pre + name).len() as int) =~= name);
        assert(active_path(v).subrange(pre.len() as int, active_path(v).len() as int) =~= active_name(v.root));
        reveal_strlit(".ACTIVE");
        let d = name.subrange(v.root.len() as int + 1, name.len() as int);
        assert(d[0] == name[v.root.len() as int + 1]);
        assert(name[v.root.len() as int + 1] == 'A');
    }
    if count < n && prune_paths(v, count, entries).len() > 0 {
        let p = prune_paths(v, count, entries).last();
        lemma_prune_paths_members(v, count, entries, p);
        assert(prune_paths(v, count, entries).contains(p));
    }
}

} // verus!
