use vstd::prelude::*;

use crate::counts::{lemma_line_count_le_len, line_count, newline_count, NEWLINE};

verus! {

/// Content gathered line by line from a stream that can be read only once,
/// together with the number of lines read so far.
pub struct LineStream {
    data: Vec<u8>,
    reads: u64,
}

/// Whether `chunk` is what one line read hands back: not empty, and with no
/// newline but possibly its last byte.
pub open spec fn is_line_chunk(chunk: Seq<u8>) -> bool {
    &&& chunk.len() > 0
    &&& forall|i: int| 0 <= i < chunk.len() - 1 ==> #[trigger] chunk[i] != NEWLINE
}

/// The newlines of two pieces add up.
proof fn lemma_newline_count_concat(a: Seq<u8>, b: Seq<u8>)
    ensures
        newline_count(a + b) == newline_count(a) + newline_count(b),
    decreases b.len(),
{
    if b.len() > 0 {
        assert((a + b).drop_last() =~= a + b.drop_last());
        lemma_newline_count_concat(a, b.drop_last());
    } else {
        assert(a + b =~= a);
    }
}

/// A line chunk holds a newline only if it ends with one.
proof fn lemma_chunk_newlines(chunk: Seq<u8>)
    requires
        forall|i: int| 0 <= i < chunk.len() ==> #[trigger] chunk[i] != NEWLINE,
    ensures
        newline_count(chunk) == 0,
    decreases chunk.len(),
{
    if chunk.len() > 0 {
        lemma_chunk_newlines(chunk.drop_last());
    }
}

impl LineStream {
    /// The bytes gathered so far.
    pub closed spec fn content(&self) -> Seq<u8> {
        self.data@
    }

    /// The number of lines read so far.
    pub closed spec fn reads(&self) -> nat {
        self.reads as nat
    }

    /// The number of lines read agrees with the lines of the content.
    pub open spec fn wf(&self) -> bool {
        self.reads() == line_count(self.content())
    }

    /// Whether another line can follow: nothing was read yet, or the last
    /// read ended with a newline.
    pub open spec fn open_spec(&self) -> bool {
        self.content().len() == 0 || self.content().last() == NEWLINE
    }

    /// An empty stream.
    pub fn new() -> (r: LineStream)
        ensures
            r.wf(),
            r.content() == Seq::<u8>::empty(),
            r.reads() == 0,
    {
        LineStream { data: Vec::new(), reads: 0 }
    }

    /// Whether another line can follow (see `open_spec`).
    pub fn is_open(&self) -> (r: bool)
        ensures
            r == self.open_spec(),
    {
        let n = self.data.len();
        n == 0 || self.data[n - 1] == NEWLINE
    }

    /// Adds one line, as one read handed it back.
    pub fn push_line(&mut self, chunk: &[u8])
        requires
            old(self).wf(),
            old(self).open_spec(),
            is_line_chunk(chunk@),
            old(self).content().len() + chunk@.len() <= usize::MAX,
        ensures
            final(self).wf(),
            final(self).content() == old(self).content() + chunk@,
            final(self).reads() == old(self).reads() + 1,
    {
        let ghost before = self.data@;
        let ghost body = chunk@.drop_last();
        proof {
            lemma_chunk_newlines(body);
            assert(body.push(chunk@.last()) =~= chunk@);
            lemma_newline_count_concat(before, chunk@);
            assert(chunk@.drop_last() == body);
            lemma_newline_count_concat(before + body, seq![chunk@.last()]);
            assert(before + chunk@ =~= before + body + seq![chunk@.last()]);
            lemma_newline_count_concat(before, body);
            assert(seq![chunk@.last()].drop_last() =~= Seq::<u8>::empty());
        }
        self.data.extend_from_slice(chunk);
        assert(self.data@ =~= before + chunk@);
        proof {
            lemma_line_count_le_len(self.data@);
        }
        self.reads = self.reads + 1;
    }

    /// The bytes gathered so far.
    pub fn bytes(&self) -> (r: &[u8])
        ensures
            r@ == self.content(),
    {
        self.data.as_slice()
    }

    /// The number of lines read so far.
    pub fn line_reads(&self) -> (r: u64)
        ensures
            r == self.reads(),
    {
        self.reads
    }
}

} // verus!
