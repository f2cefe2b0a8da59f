//! A plain collection of files read from a directory tree, with the memory
//! it accounts for.
use vstd::prelude::*;
use vstd::utf8::encode_utf8;

verus! {

/// A file's path and content.
#[derive(Debug, Clone)]
pub struct FileData {
    pub filename: String,
    pub contents: Vec<u8>,
}

/// The size a file accounts for: a fixed overhead of 256 bytes plus its
/// path's and its content's byte lengths.
pub open spec fn file_size(f: FileData) -> nat {
    256 + encode_utf8(f.filename@).len() + f.contents@.len()
}

/// The total size that a sequence of files accounts for.
pub open spec fn files_size(fs: Seq<FileData>) -> nat
    decreases fs.len(),
{
    if fs.len() == 0 {
        0
    } else {
        files_size(fs.drop_last()) + file_size(fs.last())
    }
}

impl FileData {
    /// A file with the given path and content.
    pub fn from(filename: String, contents: Vec<u8>) -> (r: Self)
        ensures
            r.filename@ == filename@,
            r.contents@ == contents@,
    {
        FileData { filename: filename, contents: contents }
    }

    /// The size the file accounts for.
    pub fn sizeof(&self) -> (r: usize)
        requires
            file_size(*self) <= usize::MAX,
        ensures
            r == file_size(*self),
    {
        4 * 64 + self.filename.as_str().len() + self.contents.len()
    }

    /// The file's path and content, given back to the caller.
    pub fn extract(self) -> (r: (String, Vec<u8>))
        ensures
            r.0@ == self.filename@,
            r.1@ == self.contents@,
    {
        (self.filename, self.contents)
    }
}

/// An ordered collection of files.
#[derive(Debug)]
pub struct FileCollection {
    pub files: Vec<FileData>,
}

proof fn lemma_files_size_grows(fs: Seq<FileData>, i: int)
    requires
        0 <= i <= fs.len(),
    ensures
        files_size(fs.subrange(0, i)) <= files_size(fs),
    decreases fs.len() - i,
{
    if i < fs.len() {
        lemma_files_size_grows(fs, i + 1);
        assert(fs.subrange(0, i + 1).drop_last() =~= fs.subrange(0, i));
        assert(file_size(fs[i]) >= 0);
    } else {
        assert(fs.subrange(0, i) =~= fs);
    }
}

impl FileCollection {
    /// An empty collection.
    pub fn new() -> (r: Self)
        ensures
            r.files@ == Seq::<FileData>::empty(),
    {
        FileCollection { files: Vec::new() }
    }

    /// The total size that the files account for.
    pub fn sizeof(&self) -> (r: usize)
        requires
            files_size(self.files@) <= usize::MAX,
        ensures
            r == files_size(self.files@),
    {
        let mut total: usize = 0;
        let mut i: usize = 0;
        while i < self.files.len()
            invariant
                i <= self.files@.len(),
                files_size(self.files@) <= usize::MAX,
                total == files_size(self.files@.subrange(0, i as int)),
            decreases self.files@.len() - i,
        {
            proof {
                lemma_files_size_grows(self.files@, i + 1);
                assert(self.files@.subrange(0, i + 1).drop_last() =~= self.files@.subrange(0, i as int));
            }
            total = total + self.files[i].sizeof();
            i = i + 1;
        }
        assert(self.files@.subrange(0, i as int) =~= self.files@);
        total
    }

    /// Appends one file at the end.
    pub fn push(&mut self, elem: FileData)
        ensures
            final(self).files@ == old(self).files@.push(elem),
    {
        self.files.push(elem);
    }
}

} // verus!
