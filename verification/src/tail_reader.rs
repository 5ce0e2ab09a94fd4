//! Reading the last lines of a file backwards, a chunk at a time, within a
//! line budget and a byte budget. The reader says which chunk to read next
//! and splits what it was given into lines; the caller reads the chunks.
//! Lines end at `\n`; a `\r` before it is dropped, and the empty lines a
//! final line feed leaves are not returned.
use vstd::prelude::*;

verus! {

/// How many bytes each read asks for, at most.
pub const TAIL_CHUNK_BYTES: u64 = 65536;

/// Position of the last line feed of `s`, if it has one.
pub open spec fn last_nl(s: Seq<u8>) -> Option<int>
    decreases s.len(),
{
    if s.len() == 0 {
        None
    } else if s.last() == 10 {
        Some(s.len() - 1)
    } else {
        last_nl(s.drop_last())
    }
}

/// The pieces of `s` between its line feeds: one more than there are line
/// feeds, empty pieces included.
pub open spec fn split_lines(s: Seq<u8>) -> Seq<Seq<u8>>
    decreases s.len(),
{
    match last_nl(s) {
        Some(i) => if 0 <= i < s.len() {
            split_lines(s.take(i)).push(s.skip(i + 1))
        } else {
            seq![s]
        },
        None => seq![s],
    }
}

/// Whether `s` holds no line feed.
pub open spec fn no_nl(s: Seq<u8>) -> bool {
    forall|i: int| 0 <= i < s.len() ==> s[i] != 10
}

/// Each piece preceded by a line feed, all joined.
pub open spec fn joined_after_nl(pieces: Seq<Seq<u8>>) -> Seq<u8>
    decreases pieces.len(),
{
    if pieces.len() == 0 {
        Seq::empty()
    } else {
        joined_after_nl(pieces.drop_last()) + seq![10u8] + pieces.last()
    }
}

/// Pieces without line feeds.
pub open spec fn all_no_nl(pieces: Seq<Seq<u8>>) -> bool {
    forall|i: int| 0 <= i < pieces.len() ==> no_nl(#[trigger] pieces[i])
}

/// A line without the `\r` of a `\r\n` ending.
pub open spec fn strip_cr_bytes(l: Seq<u8>) -> Seq<u8> {
    if l.len() > 0 && l.last() == 13 {
        l.drop_last()
    } else {
        l
    }
}

/// The lines without the empty ones at their end.
pub open spec fn drop_trailing_empty(ls: Seq<Seq<u8>>) -> Seq<Seq<u8>>
    decreases ls.len(),
{
    if ls.len() > 0 && ls.last().len() == 0 {
        drop_trailing_empty(ls.drop_last())
    } else {
        ls
    }
}

/// Each line without its `\r`.
pub open spec fn strip_crs_bytes(ls: Seq<Seq<u8>>) -> Seq<Seq<u8>>
    decreases ls.len(),
{
    if ls.len() == 0 {
        Seq::empty()
    } else {
        strip_crs_bytes(ls.drop_last()).push(strip_cr_bytes(ls.last()))
    }
}

/// The lines the reader returns of the bytes `read` (the end of the file):
/// the pieces after its last `max_lines` line feeds, with the piece before
/// the first line feed too when the whole file was read and the budget
/// allows; the empty lines a final line feed of the file leaves are
/// dropped, and each line loses the `\r` of a `\r\n`.
pub open spec fn tail_lines(read: Seq<u8>, whole_file: bool, max_lines: nat, ends_with_newline: bool) -> Seq<Seq<u8>> {
    let segs = split_lines(read);
    let n = (segs.len() - 1) as nat;
    let k = if max_lines < n { max_lines } else { n };
    let after = segs.subrange(n + 1 - k, (n + 1) as int);
    let lines = if whole_file && k < max_lines && segs[0].len() > 0 {
        seq![segs[0]] + after
    } else {
        after
    };
    strip_crs_bytes(if ends_with_newline { drop_trailing_empty(lines) } else { lines })
}

proof fn lemma_last_nl_bounds(s: Seq<u8>)
    ensures
        match last_nl(s) {
            Some(i) => 0 <= i < s.len() && s[i] == 10 && no_nl(s.skip(i + 1)),
            None => no_nl(s),
        },
    decreases s.len(),
{
    if s.len() > 0 && s.last() != 10 {
        lemma_last_nl_bounds(s.drop_last());
        match last_nl(s.drop_last()) {
            Some(i) => {
                let t = s.skip(i + 1);
                assert forall|j: int| 0 <= j < t.len() implies #[trigger] t[j] != 10 by {
                    if i + 1 + j < s.len() - 1 {
                        assert(t[j] == s.drop_last().skip(i + 1)[j]);
                    }
                }
            },
            None => {
                assert forall|j: int| 0 <= j < s.len() implies s[j] != 10 by {
                    if j < s.len() - 1 {
                        assert(s[j] == s.drop_last()[j]);
                    }
                }
            },
        }
    }
}

proof fn lemma_last_nl_after(a: Seq<u8>, b: Seq<u8>)
    requires
        no_nl(b),
    ensures
        last_nl(a + seq![10u8] + b) == Some(a.len() as int),
    decreases b.len(),
{
    let s = a + seq![10u8] + b;
    if b.len() == 0 {
        assert(s.last() == 10);
    } else {
        assert(s.last() == b.last());
        assert(s.drop_last() =~= a + seq![10u8] + b.drop_last());
        lemma_last_nl_after(a, b.drop_last());
    }
}

proof fn lemma_no_nl_single(s: Seq<u8>)
    requires
        no_nl(s),
    ensures
        last_nl(s) is None,
        split_lines(s) == seq![s],
    decreases s.len(),
{
    if s.len() > 0 {
        lemma_no_nl_single(s.drop_last());
    }
}

/// Splitting what precedes some newline-free pieces, each after a line
/// feed, gives the split of the front followed by the pieces.
proof fn lemma_split_joined(a: Seq<u8>, pieces: Seq<Seq<u8>>)
    requires
        all_no_nl(pieces),
    ensures
        split_lines(a + joined_after_nl(pieces)) == split_lines(a) + pieces,
    decreases pieces.len(),
{
    if pieces.len() == 0 {
        assert(a + joined_after_nl(pieces) =~= a);
        assert(split_lines(a) + pieces =~= split_lines(a));
    } else {
        let front = a + joined_after_nl(pieces.drop_last());
        let last = pieces.last();
        assert(no_nl(pieces[pieces.len() - 1]));
        assert(a + joined_after_nl(pieces) =~= front + seq![10u8] + last);
        lemma_last_nl_after(front, last);
        let s = front + seq![10u8] + last;
        assert(s.take(front.len() as int) =~= front);
        assert(s.skip(front.len() as int + 1) =~= last);
        assert forall|i: int| 0 <= i < pieces.drop_last().len() implies no_nl(#[trigger] pieces.drop_last()[i]) by {
            assert(pieces.drop_last()[i] == pieces[i]);
        }
        lemma_split_joined(a, pieces.drop_last());
        assert(split_lines(a) + pieces =~= (split_lines(a) + pieces.drop_last()).push(last));
    }
}

proof fn lemma_split_len(s: Seq<u8>)
    ensures
        split_lines(s).len() >= 1,
    decreases s.len(),
{
    lemma_last_nl_bounds(s);
    match last_nl(s) {
        Some(i) => {
            lemma_split_len(s.take(i));
        },
        None => {},
    }
}

/// The state of a backwards read: where the next chunk ends, the bytes
/// read so far, the part of them before their earliest line feed taken
/// apart, and the lines taken apart after it.
pub struct TailReader {
    pos: u64,
    max_lines: usize,
    max_bytes: usize,
    bytes_read: usize,
    carry: Vec<u8>,
    lines: Vec<Vec<u8>>,
    read: Ghost<Seq<u8>>,
}

/// The views of some byte vectors.
pub open spec fn bytes_views(v: Seq<Vec<u8>>) -> Seq<Seq<u8>> {
    v.map_values(|b: Vec<u8>| b@)
}

impl TailReader {
    /// The bytes read so far: the end of the file from `pos()` on.
    pub closed spec fn read(&self) -> Seq<u8> {
        self.read@
    }

    /// Where the bytes read so far start in the file.
    pub closed spec fn pos(&self) -> u64 {
        self.pos
    }

    /// The most lines the reader returns.
    pub closed spec fn max_lines(&self) -> usize {
        self.max_lines
    }

    /// How many bytes the reader reads before it stops asking for more.
    pub closed spec fn max_bytes(&self) -> usize {
        self.max_bytes
    }

    /// How many bytes the reader has asked for so far, at most `usize::MAX`.
    pub closed spec fn bytes_read(&self) -> usize {
        self.bytes_read
    }

    /// How many lines have been taken apart so far.
    pub closed spec fn lines_taken(&self) -> nat {
        self.lines@.len()
    }

    /// The read bytes are the carry followed by the lines taken apart,
    /// each after its line feed; as many lines are taken apart as the
    /// budget allows, and the carry holds no line feed while it allows
    /// more.
    pub closed spec fn wf(&self) -> bool {
        &&& self.read@ == self.carry@ + joined_after_nl(bytes_views(self.lines@))
        &&& all_no_nl(bytes_views(self.lines@))
        &&& self.lines@.len() <= self.max_lines
        &&& (self.lines@.len() < self.max_lines ==> no_nl(self.carry@))
    }

    /// A reader of a file of `file_len` bytes that returns at most
    /// `max_lines` lines and reads chunks until `max_bytes` are read.
    pub fn new(file_len: u64, max_lines: usize, max_bytes: usize) -> (r: Self)
        ensures
            r.wf(),
            r.read() == Seq::<u8>::empty(),
            r.pos() == file_len,
            r.max_lines() == max_lines,
            r.max_bytes() == max_bytes,
            r.bytes_read() == 0,
            r.lines_taken() == 0,
    {
        let r = TailReader {
            pos: file_len,
            max_lines,
            max_bytes,
            bytes_read: 0,
            carry: Vec::new(),
            lines: Vec::new(),
            read: Ghost(Seq::empty()),
        };
        proof {
            assert(bytes_views(r.lines@) =~= Seq::<Seq<u8>>::empty());
            assert(r.read@ =~= r.carry@ + joined_after_nl(bytes_views(r.lines@)));
        }
        r
    }

    /// The chunk to read next, as its start and length: the bytes before
    /// those read, at most a chunk's worth, while there are any and both
    /// budgets allow.
    pub fn next_chunk(&self) -> (r: Option<(u64, u64)>)
        ensures
            match r {
                Some((start, size)) => {
                    &&& self.pos() > 0 && self.lines_taken() < self.max_lines()
                    &&& self.bytes_read() < self.max_bytes()
                    &&& size == if self.pos() < TAIL_CHUNK_BYTES { self.pos() } else { TAIL_CHUNK_BYTES }
                    &&& start == self.pos() - size
                },
                None => !(self.pos() > 0 && self.lines_taken() < self.max_lines() && self.bytes_read() < self.max_bytes()),
            },
    {
        if self.pos > 0 && self.lines.len() < self.max_lines && self.bytes_read < self.max_bytes {
            let size = if self.pos < TAIL_CHUNK_BYTES { self.pos } else { TAIL_CHUNK_BYTES };
            Some((self.pos - size, size))
        } else {
            None
        }
    }

    /// Takes the chunk `next_chunk` asked for: its bytes come before those
    /// read so far, and the lines it completes are taken apart.
    pub fn feed(&mut self, chunk: Vec<u8>)
        requires
            old(self).wf(),
            old(self).pos() > 0,
            old(self).lines_taken() < old(self).max_lines(),
            chunk@.len() == if old(self).pos() < TAIL_CHUNK_BYTES { old(self).pos() as nat } else { TAIL_CHUNK_BYTES as nat },
        ensures
            final(self).wf(),
            final(self).read() == chunk@ + old(self).read(),
            final(self).pos() == old(self).pos() - chunk@.len(),
            final(self).max_lines() == old(self).max_lines(),
            final(self).max_bytes() == old(self).max_bytes(),
            final(self).bytes_read() == if old(self).bytes_read() + chunk@.len() > usize::MAX {
                usize::MAX as int
            } else {
                old(self).bytes_read() + chunk@.len()
            },
    {
        let n = chunk.len();
        self.pos = self.pos - n as u64;
        self.bytes_read = self.bytes_read.saturating_add(n);
        let ghost old_read = self.read@;
        let ghost old_carry = self.carry@;
        let mut combined = chunk;
        let mut rest: Vec<u8> = Vec::new();
        std::mem::swap(&mut rest, &mut self.carry);
        combined.append(&mut rest);
        self.carry = combined;
        proof {
            self.read = Ghost(chunk@ + old_read);
            assert(self.read@ =~= self.carry@ + joined_after_nl(bytes_views(self.lines@)));
        }
        self.take_lines();
    }

    /// Takes apart the lines after the carry's line feeds, the last first,
    /// while the budget allows.
    fn take_lines(&mut self)
        requires
            old(self).read@ == old(self).carry@ + joined_after_nl(bytes_views(old(self).lines@)),
            all_no_nl(bytes_views(old(self).lines@)),
            old(self).lines@.len() <= old(self).max_lines,
        ensures
            final(self).wf(),
            final(self).read@ == old(self).read@,
            final(self).pos == old(self).pos,
            final(self).max_lines == old(self).max_lines,
            final(self).max_bytes == old(self).max_bytes,
            final(self).bytes_read == old(self).bytes_read,
    {
        loop
            invariant
                self.read@ == old(self).read@,
                self.pos == old(self).pos,
                self.max_lines == old(self).max_lines,
                self.max_bytes == old(self).max_bytes,
                self.bytes_read == old(self).bytes_read,
                self.read@ == self.carry@ + joined_after_nl(bytes_views(self.lines@)),
                all_no_nl(bytes_views(self.lines@)),
                self.lines@.len() <= self.max_lines,
            ensures
                self.wf(),
                self.read@ == old(self).read@,
                self.pos == old(self).pos,
                self.max_lines == old(self).max_lines,
                self.max_bytes == old(self).max_bytes,
                self.bytes_read == old(self).bytes_read,
            decreases self.carry@.len(),
        {
            if self.lines.len() >= self.max_lines {
                break;
            }
            match last_newline(&self.carry) {
                None => {
                    proof {
                        lemma_last_nl_bounds(self.carry@);
                    }
                    break;
                },
                Some(idx) => {
                    let ghost c0 = self.carry@;
                    let ghost l0 = bytes_views(self.lines@);
                    let clen = self.carry.len();
                    proof {
                        lemma_last_nl_bounds(c0);
                        assert(idx < clen);
                    }
                    let line = self.carry.split_off(idx + 1);
                    self.carry.truncate(idx);
                    proof {
                        assert(self.carry@ =~= c0.take(idx as int));
                        assert(line@ =~= c0.skip(idx + 1));
                    }
                    self.lines.insert(0, line);
                    proof {
                        let l1 = bytes_views(self.lines@);
                        assert(l1 =~= seq![line@] + l0);
                        assert(c0 =~= self.carry@ + seq![10u8] + line@);
                        lemma_joined_front(line@, l0);
                        assert(self.read@ =~= self.carry@ + joined_after_nl(l1));
                        assert forall|i: int| 0 <= i < l1.len() implies no_nl(#[trigger] l1[i]) by {
                            if i > 0 {
                                assert(l1[i] == l0[i - 1]);
                            }
                        }
                    }
                },
            }
        }
    }

    /// The lines read, in file order; `ends_with_newline` tells whether
    /// the file's last byte is a line feed.
    pub fn finish(self, ends_with_newline: bool) -> (r: Vec<Vec<u8>>)
        requires
            self.wf(),
        ensures
            bytes_views(r@) == tail_lines(self.read(), self.pos() == 0, self.max_lines() as nat, ends_with_newline),
    {
        let ghost segs = split_lines(self.read@);
        let ghost after = bytes_views(self.lines@);
        proof {
            lemma_split_joined(self.carry@, after);
            lemma_split_len(self.carry@);
            if self.lines@.len() < self.max_lines {
                lemma_no_nl_single(self.carry@);
            }
            let n = (segs.len() - 1) as nat;
            let k = if (self.max_lines as nat) < n { self.max_lines as nat } else { n };
            assert(k == after.len());
            assert(segs.subrange(n + 1 - k, (n + 1) as int) =~= after);
        }
        let TailReader { pos, max_lines, carry, lines, .. } = self;
        let mut out: Vec<Vec<u8>> = Vec::new();
        let first = pos == 0 && lines.len() < max_lines && carry.len() > 0;
        if first {
            out.push(carry);
        }
        let mut rest = lines;
        out.append(&mut rest);
        let ghost before_trim = bytes_views(out@);
        proof {
            if first {
                assert(segs[0] == out@[0]@);
                assert(before_trim =~= seq![segs[0]] + after);
            } else {
                assert(before_trim =~= after);
            }
        }
        if ends_with_newline {
            drop_empty_tail(&mut out);
        }
        strip_crs(out)
    }
}

proof fn lemma_joined_front(line: Seq<u8>, rest: Seq<Seq<u8>>)
    ensures
        joined_after_nl(seq![line] + rest) == seq![10u8] + line + joined_after_nl(rest),
    decreases rest.len(),
{
    let all = seq![line] + rest;
    if rest.len() == 0 {
        assert(all =~= seq![line]);
        assert(all.drop_last() =~= Seq::<Seq<u8>>::empty());
        assert(all.last() == line);
        assert(joined_after_nl(all) == joined_after_nl(all.drop_last()) + seq![10u8] + all.last());
        assert(joined_after_nl(all) =~= seq![10u8] + line + joined_after_nl(rest));
    } else {
        lemma_joined_front(line, rest.drop_last());
        assert(all.drop_last() =~= seq![line] + rest.drop_last());
        assert(all.last() == rest.last());
        assert(joined_after_nl(all) == joined_after_nl(all.drop_last()) + seq![10u8] + all.last());
        assert(joined_after_nl(rest) == joined_after_nl(rest.drop_last()) + seq![10u8] + rest.last());
        assert(joined_after_nl(all) =~= seq![10u8] + line + joined_after_nl(rest));
    }
}

fn last_newline(v: &Vec<u8>) -> (r: Option<usize>)
    ensures
        match r {
            Some(i) => i < v@.len() && last_nl(v@) == Some(i as int),
            None => last_nl(v@) is None,
        },
{
    let mut i: usize = v.len();
    proof {
        assert(v@.take(i as int) =~= v@);
    }
    while i > 0
        invariant
            i <= v@.len(),
            last_nl(v@) == last_nl(v@.take(i as int)),
        decreases i,
    {
        proof {
            assert(v@.take(i as int).drop_last() =~= v@.take(i - 1));
        }
        if v[i - 1] == 10u8 {
            return Some(i - 1);
        }
        i = i - 1;
    }
    proof {
        assert(v@.take(0) =~= Seq::<u8>::empty());
    }
    None
}

fn drop_empty_tail(v: &mut Vec<Vec<u8>>)
    ensures
        bytes_views(final(v)@) == drop_trailing_empty(bytes_views(old(v)@)),
{
    while v.len() > 0 && v[v.len() - 1].len() == 0
        invariant
            drop_trailing_empty(bytes_views(v@)) == drop_trailing_empty(bytes_views(old(v)@)),
        decreases v@.len(),
    {
        let ghost before = bytes_views(v@);
        v.pop();
        proof {
            assert(bytes_views(v@) =~= before.drop_last());
        }
    }
}

fn strip_crs(v: Vec<Vec<u8>>) -> (r: Vec<Vec<u8>>)
    ensures
        bytes_views(r@) == strip_crs_bytes(bytes_views(v@)),
{
    let ghost orig = bytes_views(v@);
    let mut rest = v;
    let mut out: Vec<Vec<u8>> = Vec::new();
    while rest.len() > 0
        invariant
            out@.len() <= orig.len(),
            bytes_views(rest@) == orig.skip(out@.len() as int),
            bytes_views(out@) == strip_crs_bytes(orig.take(out@.len() as int)),
        decreases rest@.len(),
    {
        let i = out.len();
        let ghost r0 = rest@;
        proof {
            assert(bytes_views(r0).len() == r0.len());
            assert(orig.skip(i as int).len() > 0);
            assert(bytes_views(r0)[0] == r0[0]@);
            assert(orig.skip(i as int)[0] == orig[i as int]);
        }
        let mut line = rest.remove(0);
        proof {
            assert(line@ == orig[i as int]);
            assert forall|j: int| 0 <= j < bytes_views(rest@).len() implies #[trigger] bytes_views(rest@)[j] == orig.skip(i + 1)[j] by {
                assert(rest@[j] == r0[j + 1]);
                assert(bytes_views(r0)[j + 1] == r0[j + 1]@);
                assert(orig.skip(i as int)[j + 1] == orig[i + 1 + j]);
            }
            assert(bytes_views(rest@) =~= orig.skip(i + 1));
        }
        if line.len() > 0 && line[line.len() - 1] == 13u8 {
            line.pop();
        }
        let ghost before = bytes_views(out@);
        out.push(line);
        proof {
            assert(orig.take(i + 1).drop_last() =~= orig.take(i as int));
            assert(bytes_views(out@) =~= before.push(strip_cr_bytes(orig[i as int])));
        }
    }
    proof {
        assert(orig.take(out@.len() as int) =~= orig);
    }
    out
}

} // verus!
