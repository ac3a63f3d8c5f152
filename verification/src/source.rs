//! An in-memory buffered byte source. It is the scanner's only position
//! state: a peek at the unread bytes, a consuming advance, and a line
//! read, all over one cursor.

use vstd::prelude::*;

verus! {

/// First position of `b` in `s`, if any.
pub open spec fn find_byte(s: Seq<u8>, b: u8) -> Option<int>
    decreases s.len(),
{
    if s.len() == 0 {
        None
    } else if s[0] == b {
        Some(0)
    } else {
        match find_byte(s.skip(1), b) {
            Some(i) => Some(i + 1),
            None => None,
        }
    }
}

/// What `find_byte` returns is the first position of `b`, and it returns
/// nothing exactly when `b` does not occur.
pub proof fn lemma_find_byte(s: Seq<u8>, b: u8)
    ensures
        find_byte(s, b) matches Some(i) ==> 0 <= i < s.len() && s[i] == b && forall|j: int|
            0 <= j < i ==> s[j] != b,
        find_byte(s, b) is None ==> forall|j: int| 0 <= j < s.len() ==> s[j] != b,
    decreases s.len(),
{
    if s.len() > 0 && s[0] != b {
        lemma_find_byte(s.skip(1), b);
        // positions in the tail sit one later in the whole
        assert(forall|j: int| 1 <= j < s.len() ==> s[j] == s.skip(1)[j - 1]);
    }
}

/// The bytes a line read hands back: everything before the first newline,
/// or the whole text when it has none.
pub open spec fn line_content(s: Seq<u8>) -> Seq<u8> {
    match find_byte(s, 10) {
        Some(i) => s.take(i),
        None => s,
    }
}

/// How many bytes a line read consumes: the content plus the newline that
/// ends it, if there is one.
pub open spec fn line_advance(s: Seq<u8>) -> int {
    match find_byte(s, 10) {
        Some(i) => i + 1,
        None => s.len() as int,
    }
}

/// A byte buffer with a read cursor. Bytes before the cursor are gone;
/// `remaining` is everything still unread.
pub struct ByteSource {
    data: Vec<u8>,
    pos: usize,
}

impl ByteSource {
    /// The cursor never passes the end of the buffer.
    pub closed spec fn wf(self) -> bool {
        self.pos <= self.data@.len()
    }

    /// The unread bytes.
    pub closed spec fn remaining(self) -> Seq<u8> {
        self.data@.skip(self.pos as int)
    }

    /// A source holding `data`, nothing yet read.
    pub fn new(data: Vec<u8>) -> (r: ByteSource)
        ensures
            r.wf(),
            r.remaining() == data@,
    {
        let r = ByteSource { data, pos: 0 };
        proof {
            assert(r.remaining() =~= r.data@);
        }
        r
    }

    /// Peek at the unread bytes without consuming them.
    pub fn buffered(&self) -> (r: &[u8])
        requires
            self.wf(),
        ensures
            r@ == self.remaining(),
    {
        vstd::slice::slice_subrange(self.data.as_slice(), self.pos, self.data.len())
    }

    /// How many bytes are left unread.
    pub fn buffered_len(&self) -> (r: usize)
        requires
            self.wf(),
        ensures
            r as int == self.remaining().len(),
    {
        self.data.len() - self.pos
    }

    /// Discards the first `n` unread bytes.
    pub fn consume(&mut self, n: usize)
        requires
            old(self).wf(),
            n <= old(self).remaining().len(),
        ensures
            final(self).wf(),
            final(self).remaining() == old(self).remaining().skip(n as int),
    {
        let cap = self.data.len();
        proof {
            assert(self.pos + n <= cap);
        }
        self.pos = self.pos + n;
        proof {
            assert(self.data@.skip(self.pos as int) =~= old(self).remaining().skip(n as int));
        }
    }

    /// Reads one line: consumes through the first newline, or to the end
    /// when there is none, and hands back the bytes before the newline.
    /// Nothing comes back only when nothing is left to read.
    pub fn read_line(&mut self) -> (r: Option<Vec<u8>>)
        requires
            old(self).wf(),
        ensures
            final(self).wf(),
            old(self).remaining().len() == 0 ==> r is None && final(self).remaining() == old(
                self,
            ).remaining(),
            old(self).remaining().len() > 0 ==> (r matches Some(v) && v@ == line_content(
                old(self).remaining(),
            ) && final(self).remaining() == old(self).remaining().skip(
                line_advance(old(self).remaining()),
            )),
    {
        let n = self.buffered_len();
        if n == 0 {
            proof {
                assert(self.remaining() =~= old(self).remaining());
            }
            return None;
        }
        let ghost rem = self.remaining();
        // look for the newline among the unread bytes
        let mut i: usize = 0;
        let mut advance: usize = n;
        let mut content_len: usize = n;
        let mut found = false;
        while i < n && !found
            invariant
                i <= n,
                n as int == rem.len(),
                self.wf(),
                self.remaining() == rem,
                !found ==> forall|j: int| 0 <= j < i ==> rem[j] != 10,
                !found ==> advance == n && content_len == n,
                found ==> i < n && rem[i as int] == 10 && advance == i + 1 && content_len == i
                    && forall|j: int| 0 <= j < i ==> rem[j] != 10,
            decreases n - i + (if found {
                0int
            } else {
                1int
            }),
        {
            let b = {
                let buf = self.buffered();
                *vstd::slice::slice_index_get(buf, i)
            };
            if b == 10 {
                advance = i + 1;
                content_len = i;
                found = true;
            } else {
                i = i + 1;
            }
        }
        proof {
            lemma_find_byte(rem, 10);
            if found {
                // the loop stopped at the first newline
                assert(find_byte(rem, 10) == Some(i as int));
            } else {
                assert(find_byte(rem, 10) is None);
            }
        }
        let content = {
            let buf = self.buffered();
            vstd::slice::slice_to_vec(vstd::slice::slice_subrange(buf, 0, content_len))
        };
        self.consume(advance);
        proof {
            assert(content@ =~= line_content(rem));
        }
        Some(content)
    }
}

} // verus!
