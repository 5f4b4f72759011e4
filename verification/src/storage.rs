use vstd::prelude::*;

verus! {

/// Where encrypted files are uploaded: an S3 bucket, written in parts of a
/// fixed size.
pub struct S3Storage {
    pub bucket_name: String,
    pub chunk_size: usize,
}

impl S3Storage {
    pub fn new(bucket_name: &str, chunk_size: usize) -> (r: Self)
        ensures
            r.bucket_name@ == bucket_name@,
            r.chunk_size == chunk_size,
    {
        S3Storage { bucket_name: bucket_name.to_string(), chunk_size }
    }
}

/// What a multipart upload does after a read from its source.
#[derive(Debug, PartialEq, Eq, Structural)]
pub enum UploadStep {
    /// Send the `len` bytes just read as the part numbered `part_number`.
    SendPart { part_number: i32, len: usize },
    /// Complete the upload with the parts sent so far.
    Complete,
}

/// The entity tag that the store gave for a part, or the empty text where it gave none.
pub open spec fn e_tag_or_empty(e_tag: Option<String>) -> Seq<char> {
    match e_tag {
        Some(t) => t@,
        None => Seq::empty(),
    }
}

/// The progress of a multipart upload: the parts that the store has taken,
/// each with its entity tag and its number, numbered from 1 in the order
/// they were sent.
pub struct MultipartUpload {
    parts: Vec<(String, i32)>,
    next_part: i32,
}

impl View for MultipartUpload {
    type V = Seq<(Seq<char>, i32)>;

    closed spec fn view(&self) -> Seq<(Seq<char>, i32)> {
        self.parts@.map_values(|p: (String, i32)| (p.0@, p.1))
    }
}

impl MultipartUpload {
    /// The number that the next part sent gets.
    pub closed spec fn next_part_spec(&self) -> int {
        self.next_part as int
    }

    /// Parts are numbered 1, 2, ... in order, and the next part follows the last.
    pub closed spec fn wf(&self) -> bool {
        &&& self.next_part == self.parts@.len() + 1
        &&& forall|k: int| 0 <= k < self.parts@.len() ==> (#[trigger] self.parts@[k]).1 == k + 1
    }

    /// The parts are numbered 1, 2, ... in order, and the next part follows the last.
    pub proof fn lemma_numbering(&self)
        requires
            self.wf(),
        ensures
            self.next_part_spec() == self@.len() + 1,
            forall|k: int| 0 <= k < self@.len() ==> (#[trigger] self@[k]).1 == k + 1,
    {
    }

    pub fn new() -> (r: Self)
        ensures
            r.wf(),
            r@ == Seq::<(Seq<char>, i32)>::empty(),
            r.next_part_spec() == 1,
    {
        MultipartUpload { parts: Vec::new(), next_part: 1 }
    }

    pub fn next_part(&self) -> (r: i32)
        ensures
            r == self.next_part_spec(),
    {
        self.next_part
    }

    /// The step after a read of `read` bytes from the source, `None` for a
    /// failed read: an empty or failed read completes the upload, any other
    /// sends the bytes read as the next part.
    pub fn after_read(&self, read: Option<usize>) -> (r: UploadStep)
        ensures
            match read {
                Some(n) => if n > 0 {
                    r == (UploadStep::SendPart { part_number: self.next_part_spec() as i32, len: n })
                } else {
                    r == UploadStep::Complete
                },
                None => r == UploadStep::Complete,
            },
    {
        match read {
            Some(n) => if n > 0 {
                UploadStep::SendPart { part_number: self.next_part, len: n }
            } else {
                UploadStep::Complete
            },
            None => UploadStep::Complete,
        }
    }

    /// Records that the store has taken the next part, under the entity tag it gave.
    pub fn part_sent(&mut self, e_tag: Option<String>)
        requires
            old(self).wf(),
            old(self).next_part_spec() < i32::MAX,
        ensures
            final(self).wf(),
            final(self)@ == old(self)@.push((e_tag_or_empty(e_tag), old(self).next_part_spec() as i32)),
            final(self).next_part_spec() == old(self).next_part_spec() + 1,
    {
        let tag = match e_tag {
            Some(t) => t,
            None => String::new(),
        };
        let number = self.next_part;
        self.parts.push((tag, number));
        self.next_part = number + 1;
        assert(self@ =~= old(self)@.push((e_tag_or_empty(e_tag), old(self).next_part_spec() as i32)));
    }

    /// The parts sent so far, each with its entity tag and its number.
    pub fn parts(&self) -> (r: &Vec<(String, i32)>)
        ensures
            r@.map_values(|p: (String, i32)| (p.0@, p.1)) == self@,
    {
        &self.parts
    }
}

/// The number of bytes a download has written so far.
pub struct DownloadTally {
    byte_count: usize,
}

impl DownloadTally {
    pub closed spec fn count(&self) -> nat {
        self.byte_count as nat
    }

    pub fn new() -> (r: Self)
        ensures
            r.count() == 0,
    {
        DownloadTally { byte_count: 0 }
    }

    /// Counts a chunk of `len` bytes that was written out.
    pub fn add_chunk(&mut self, len: usize)
        requires
            old(self).count() + len <= usize::MAX,
        ensures
            final(self).count() == old(self).count() + len,
    {
        self.byte_count = self.byte_count + len;
    }

    pub fn byte_count(&self) -> (r: usize)
        ensures
            r == self.count(),
    {
        self.byte_count
    }
}

} // verus!
