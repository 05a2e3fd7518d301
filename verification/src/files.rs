//! Records as they lie in a directory.
use crate::json::{Doc, Json};
use vstd::prelude::*;

verus! {

/// A stored record: the name of its file, when it was last written, and what
/// it says. A file that cannot be read says nothing: its document is null.
pub struct StoredFile {
    pub name: String,
    pub saved_ms: u64,
    pub doc: Json,
}

/// What a stored record is.
pub struct FileDoc {
    pub name: Seq<char>,
    pub saved_ms: u64,
    pub doc: Doc,
}

impl View for StoredFile {
    type V = FileDoc;

    open spec fn view(&self) -> FileDoc {
        FileDoc { name: self.name@, saved_ms: self.saved_ms, doc: self.doc@ }
    }
}

pub open spec fn file_docs(v: Seq<StoredFile>) -> Seq<FileDoc> {
    v.map_values(|f: StoredFile| f@)
}

/// When the last of some records was written; zero where there are none.
pub open spec fn last_saved(files: Seq<FileDoc>) -> u64
    decreases files.len(),
{
    if files.len() == 0 {
        0
    } else if files.last().saved_ms > last_saved(files.drop_last()) {
        files.last().saved_ms
    } else {
        last_saved(files.drop_last())
    }
}

/// When the last of some records was written: none was written later, and one
/// was written then; zero where there are none.
pub proof fn law_last_saved(files: Seq<FileDoc>)
    ensures
        forall|i: int| 0 <= i < files.len() ==> (#[trigger] files[i]).saved_ms <= last_saved(files),
        files.len() > 0 ==> exists|i: int|
            0 <= i < files.len() && (#[trigger] files[i]).saved_ms == last_saved(files),
        files.len() == 0 ==> last_saved(files) == 0,
    decreases files.len(),
{
    if files.len() > 0 {
        let front = files.drop_last();
        law_last_saved(front);
        assert forall|i: int| 0 <= i < files.len() implies (#[trigger] files[i]).saved_ms
            <= last_saved(files) by {
            if i < front.len() {
                assert(files[i] == front[i]);
            }
        }
        if front.len() > 0 && files.last().saved_ms <= last_saved(front) {
            let i = choose|i: int|
                0 <= i < front.len() && (#[trigger] front[i]).saved_ms == last_saved(front);
            assert(files[i] == front[i]);
        } else {
            assert(files[files.len() - 1].saved_ms == last_saved(files));
        }
    }
}

} // verus!
