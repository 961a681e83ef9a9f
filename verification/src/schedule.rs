use vstd::prelude::*;

verus! {

/// File index under which frame `i` (counted from 1) is first written.
pub open spec fn forward_index(i: int) -> int {
    i - 1
}

/// File index under which frame `i` (counted from 1) of `frames` is written a
/// second time, so that the file sequence plays forward and then backward.
pub open spec fn mirror_index(i: int, frames: int) -> int {
    (2 * frames - 1) - (i - 1)
}

/// The two file indices of frame `i` (counted from 1) out of `frames`:
/// first the forward slot `i - 1`, then the mirrored slot `2 * frames - i`.
pub fn frame_file_indices(i: u32, frames: u32) -> (r: (u32, u32))
    requires
        1 <= i <= frames,
        2 * frames <= u32::MAX,
    ensures
        r.0 == forward_index(i as int),
        r.1 == mirror_index(i as int, frames as int),
        r.0 + r.1 == 2 * frames - 1,
{
    (i - 1, ((frames * 2) - 1) - (i - 1))
}

/// The file indices removed once the video has been encoded: for each frame
/// `i` from 1 to `frames`, in that order, its mirrored slot.
pub open spec fn cleanup_spec(frames: int) -> Seq<int> {
    Seq::new(frames as nat, |j: int| mirror_index(j + 1, frames))
}

/// Computes `cleanup_spec(frames)`.
pub fn cleanup_indices(frames: u32) -> (r: Vec<u32>)
    requires
        2 * frames <= u32::MAX,
    ensures
        r@.map_values(|x: u32| x as int) == cleanup_spec(frames as int),
        r.len() == frames,
        forall|j: int| 0 <= j < frames ==> #[trigger] r[j] == mirror_index(j + 1, frames as int),
{
    let mut r: Vec<u32> = Vec::new();
    let mut i: u32 = 1;
    while i < frames + 1
        invariant
            1 <= i <= frames + 1,
            2 * frames <= u32::MAX,
            r.len() == i - 1,
            forall|j: int| 0 <= j < i - 1 ==> #[trigger] r[j] == mirror_index(j + 1, frames as int),
        decreases frames + 1 - i,
    {
        let idx: u32 = ((frames * 2) - 1) - (i - 1);
        r.push(idx);
        i = i + 1;
    }
    assert(r@.map_values(|x: u32| x as int) =~= cleanup_spec(frames as int));
    r
}

/// Every file index below `2 * frames` is written by exactly one slot: the
/// forward slots fill `0 .. frames` and the mirrored slots fill
/// `frames .. 2 * frames`, and no forward slot meets a mirrored one.
pub proof fn lemma_frame_files_partition(frames: int)
    requires
        frames >= 0,
    ensures
        forall|i: int| 1 <= i <= frames ==> 0 <= #[trigger] forward_index(i) < frames,
        forall|i: int|
            1 <= i <= frames ==> frames <= #[trigger] mirror_index(i, frames) < 2 * frames,
        forall|i: int, j: int|
            1 <= i <= frames && 1 <= j <= frames ==> #[trigger] forward_index(i)
                != #[trigger] mirror_index(j, frames),
        forall|i: int, j: int|
            1 <= i <= frames && 1 <= j <= frames && #[trigger] mirror_index(i, frames)
                == #[trigger] mirror_index(j, frames) ==> i == j,
        forall|k: int|
            0 <= k < 2 * frames ==> (k < frames && #[trigger] forward_index(k + 1) == k) || (frames
                <= k && mirror_index(2 * frames - k, frames) == k && 1 <= 2 * frames - k
                <= frames),
{
}

/// Removing the files named by `cleanup_spec` leaves exactly the forward
/// slots: every mirrored slot is removed and no forward slot is.
pub proof fn lemma_cleanup_keeps_forward_frames(frames: int)
    requires
        frames >= 0,
    ensures
        forall|i: int|
            1 <= i <= frames ==> cleanup_spec(frames).contains(#[trigger] mirror_index(i, frames)),
        forall|i: int|
            1 <= i <= frames ==> !cleanup_spec(frames).contains(#[trigger] forward_index(i)),
{
    let removed = cleanup_spec(frames);
    assert forall|i: int| 1 <= i <= frames implies removed.contains(
        #[trigger] mirror_index(i, frames),
    ) by {
        assert(removed[i - 1] == mirror_index(i, frames));
    }
}

} // verus!
