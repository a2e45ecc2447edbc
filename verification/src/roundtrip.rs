//! What is packed comes back: the laws between the bytes that packing hands
//! out and what extraction reads from them.
//!
//! The laws rest on what the archive module states of the container: that
//! the bytes of a closed writer open to an archive of what was written.
//! Where an entry lands below the output directory is decided by the place
//! that the reader finds for its name; the laws say nothing of it.

use crate::archive::{
    archive_in, file_mode, holds_archive, kept_by_reader, kept_of_written, StoredEntry,
    WrittenEntry,
};
use crate::unzipper::{is_marker, planned, unreadable, StepView};
use vstd::prelude::*;

verus! {

/// The step of an entry that was read carries what was written: it is passed
/// over, or it bears the mode of the entry that was written and, for a file,
/// its content; and it makes a directory exactly where the name that was
/// written is that of a marker.
pub open spec fn carries(step: StepView, written: WrittenEntry) -> bool {
    match step {
        StepView::Skip => true,
        StepView::MakeDir { mode, .. } => mode == written.mode && is_marker(written.name),
        StepView::WriteFile { data, mode, .. } => mode == written.mode && data == written.data
            && !is_marker(written.name),
    }
}

/// An archive that was packed is read back entry for entry: a reader of its
/// bytes finds as many entries as were written, in their order, each under
/// its name, with its mode and its content, and none of them ends the
/// reading.
pub proof fn lemma_packed_is_read_back(
    bytes: Seq<u8>,
    written: Seq<WrittenEntry>,
    read: Seq<StoredEntry>,
)
    requires
        holds_archive(bytes, written),
        archive_in(bytes) == Some(kept_by_reader(read)),
    ensures
        read.len() == written.len(),
        forall|i: int|
            0 <= i < read.len() ==> {
                &&& (#[trigger] read[i]).name == written[i].name
                &&& read[i].mode == written[i].mode
                &&& read[i].data == written[i].data
                &&& !unreadable(read[i])
                &&& carries(planned(read[i]), written[i])
            },
{
    let kept = kept_of_written(written);
    assert(kept == kept_by_reader(read));
    assert(kept.len() == written.len());
    assert forall|i: int| 0 <= i < read.len() implies {
        &&& (#[trigger] read[i]).name == written[i].name
        &&& read[i].mode == written[i].mode
        &&& read[i].data == written[i].data
        &&& !unreadable(read[i])
        &&& carries(planned(read[i]), written[i])
    } by {
        assert(kept[i] == kept_by_reader(read)[i]);
    }
}

/// Permission bits come back as they were captured: a file that was packed
/// with permission bits is read back with a mode whose low nine bits, the
/// executable bits among them, are those bits.
pub proof fn lemma_permission_bits_come_back(
    bytes: Seq<u8>,
    written: Seq<WrittenEntry>,
    read: Seq<StoredEntry>,
    index: int,
    captured: u32,
)
    requires
        holds_archive(bytes, written),
        archive_in(bytes) == Some(kept_by_reader(read)),
        0 <= index < written.len(),
        written[index].mode == Some(file_mode(Some(captured))),
    ensures
        index < read.len(),
        read[index].mode matches Some(restored) && restored & 0o777 == captured & 0o777
            && restored & 0o111 == captured & 0o111,
{
    lemma_packed_is_read_back(bytes, written, read);
    let restored = file_mode(Some(captured));
    assert(restored & 0o777 == captured & 0o777 && restored & 0o111 == captured & 0o111) by {
        assert(((captured & 0o777) | 0o100000) & 0o777 == captured & 0o777) by (bit_vector);
        assert(((captured & 0o777) | 0o100000) & 0o111 == captured & 0o111) by (bit_vector);
    }
}

} // verus!
