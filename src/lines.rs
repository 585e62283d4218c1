//! The line decoder: bytes arrive in chunks of any size, and complete
//! `\r\n`-terminated lines come out, with the delimiter removed.
use vstd::prelude::*;
use vstd::slice::slice_subrange;
use bytes::BytesMut;
use crate::buffer::{buf_extend, buf_new, buf_slice, buf_split_to, buf_truncate, bytes_of};

verus! {

/// Carriage return.
pub const CR: u8 = 13;

/// Line feed.
pub const LF: u8 = 10;

/// A `\r\n` delimiter starts at index `i` of `s`.
pub open spec fn crlf_at(s: Seq<u8>, i: int) -> bool {
    0 <= i && i + 1 < s.len() && s[i] == CR && s[i + 1] == LF
}

/// No delimiter starts before index `n` of `s`.
pub open spec fn no_crlf_before(s: Seq<u8>, n: int) -> bool {
    forall|j: int| 0 <= j < n ==> !crlf_at(s, j)
}

/// `s` holds no delimiter at all.
pub open spec fn no_crlf(s: Seq<u8>) -> bool {
    forall|j: int| !crlf_at(s, j)
}

/// The index of the first delimiter of `s` at or after `from`.
pub open spec fn find_crlf(s: Seq<u8>, from: int) -> Option<int>
    decreases s.len() - from,
{
    if from < 0 || from + 1 >= s.len() {
        None
    } else if s[from] == CR && s[from + 1] == LF {
        Some(from)
    } else {
        find_crlf(s, from + 1)
    }
}

/// What `find_crlf` returns: the first delimiter from `from` on, or none.
pub proof fn lemma_find_crlf(s: Seq<u8>, from: int)
    requires
        0 <= from,
    ensures
        match find_crlf(s, from) {
            Some(i) => from <= i && crlf_at(s, i) && forall|j: int|
                from <= j < i ==> !crlf_at(s, j),
            None => forall|j: int| from <= j ==> !crlf_at(s, j),
        },
    decreases s.len() - from,
{
    if from + 1 < s.len() && !(s[from] == CR && s[from + 1] == LF) {
        lemma_find_crlf(s, from + 1);
    }
}

/// The first delimiter of `s` is the one at `i`.
pub proof fn lemma_first_crlf(s: Seq<u8>, i: int)
    requires
        crlf_at(s, i),
        no_crlf_before(s, i),
    ensures
        find_crlf(s, 0) == Some(i),
{
    lemma_find_crlf(s, 0);
}

/// A sequence without delimiters has no first one.
pub proof fn lemma_no_first_crlf(s: Seq<u8>)
    requires
        no_crlf(s),
    ensures
        find_crlf(s, 0) == None::<int>,
{
    lemma_find_crlf(s, 0);
}

/// The first complete line of `s` and what follows its delimiter, if `s`
/// holds a delimiter.
pub open spec fn first_line(s: Seq<u8>) -> Option<(Seq<u8>, Seq<u8>)> {
    match find_crlf(s, 0) {
        Some(i) => Some((s.take(i), s.skip(i + 2))),
        None => None,
    }
}

/// Relies on memchr::memchr: the index of the first occurrence of `needle` in
/// `haystack`, or `None` when it does not occur.
#[verifier::external_body]
fn memchr(needle: u8, haystack: &[u8]) -> (r: Option<usize>)
    ensures
        match r {
            Some(i) => i < haystack@.len() && haystack@[i as int] == needle && forall|j: int|
                0 <= j < i ==> haystack@[j] != needle,
            None => forall|j: int| 0 <= j < haystack@.len() ==> haystack@[j] != needle,
        },
{
    memchr::memchr(needle, haystack)
}

/// The first delimiter of `buf`, searched for from `start` on: the bytes
/// before it are known to hold none, and are not looked at again.
fn find_crlf_from(buf: &[u8], start: usize) -> (r: Option<usize>)
    requires
        no_crlf_before(buf@, start as int),
    ensures
        match r {
            Some(i) => find_crlf(buf@, 0) == Some(i as int),
            None => find_crlf(buf@, 0) == None::<int>,
        },
{
    let len = buf.len();
    let mut pos: usize = start;
    while pos < len && pos + 1 < len
        invariant
            len == buf@.len(),
            no_crlf_before(buf@, pos as int),
        decreases len - pos,
    {
        let hay = slice_subrange(buf, pos + 1, len);
        match memchr(LF, hay) {
            None => {
                assert(no_crlf(buf@)) by {
                    assert forall|j: int| !crlf_at(buf@, j) by {
                        if pos <= j && crlf_at(buf@, j) {
                            assert(hay@[j - pos - 1 + 1] == buf@[j + 1]);
                        }
                    }
                }
                proof { lemma_no_first_crlf(buf@); }
                return None;
            },
            Some(k) => {
                let nl = pos + 1 + k;
                assert(buf@[nl as int] == LF);
                assert forall|j: int| pos <= j < nl - 1 implies !crlf_at(buf@, j) by {
                    assert(hay@[j + 1 - pos - 1] == buf@[j + 1]);
                }
                if buf[nl - 1] == CR {
                    proof { lemma_first_crlf(buf@, nl - 1); }
                    return Some(nl - 1);
                }
                pos = nl;
            },
        }
    }
    assert(no_crlf(buf@));
    proof { lemma_no_first_crlf(buf@); }
    None
}

/// The decoder: bytes received and not yet handed out as a line.
pub struct Lines {
    buf: BytesMut,
    /// Set when `buf` is known to hold no delimiter, so that a new chunk only
    /// needs to be searched where it joins the buffer and after.
    clean: bool,
    /// Set once the end of the stream has been handed out.
    ended: bool,
    /// Every byte fed so far.
    received: Ghost<Seq<u8>>,
    /// Every line handed out so far.
    delivered: Ghost<Seq<Seq<u8>>>,
}

/// The lines that an optional result adds to those handed out.
pub open spec fn out(r: Option<BytesMut>) -> Seq<Seq<u8>> {
    match r {
        Some(b) => seq![bytes_of(b)],
        None => Seq::empty(),
    }
}

/// A complete line at the front of the buffer is the next line of the
/// whole, whatever bytes follow.
proof fn lemma_decode_first_line(buf: Seq<u8>, more: Seq<u8>)
    requires
        first_line(buf) is Some,
    ensures
        match first_line(buf) {
            Some(p) => decode(buf + more) == seq![p.0] + decode(p.1 + more),
            None => true,
        },
{
    lemma_first_line_append(buf, more);
}

impl View for Lines {
    type V = Seq<u8>;

    closed spec fn view(&self) -> Seq<u8> {
        bytes_of(self.buf)
    }
}

impl Lines {
    /// The decoder's internal invariant.
    pub closed spec fn wf(&self) -> bool {
        &&& self.clean ==> no_crlf(self@)
        &&& self.ended ==> self@ == Seq::<u8>::empty() && self.delivered@ == decode(
            self.received@,
        )
        &&& !self.ended ==> forall|more: Seq<u8>|
            #[trigger] decode(self.received@ + more) == self.delivered@ + decode(self@ + more)
    }

    /// Every byte fed so far.
    pub closed spec fn received(&self) -> Seq<u8> {
        self.received@
    }

    /// Every line handed out so far.
    pub closed spec fn delivered(&self) -> Seq<Seq<u8>> {
        self.delivered@
    }

    /// The end of the stream has been handed out; no line comes any more.
    pub closed spec fn ended(&self) -> bool {
        self.ended
    }

    /// Whether the end of the stream has been handed out.
    pub fn is_ended(&self) -> (r: bool)
        ensures
            r == self.ended(),
    {
        self.ended
    }

    /// The lines handed out, followed by those that the buffer still holds,
    /// are the lines of every byte fed so far; once the decoder has ended, the
    /// lines handed out are exactly those. As that depends on the bytes alone,
    /// how they were cut into chunks changes no line.
    pub proof fn lemma_lines_of_received(&self)
        requires
            self.wf(),
        ensures
            self.delivered() + decode(self@) == decode(self.received()),
            self.ended() ==> self.delivered() == decode(self.received()),
    {
        if self.ended {
            assert(decode(Seq::<u8>::empty()) == Seq::<Seq<u8>>::empty()) by {
                lemma_find_crlf(Seq::<u8>::empty(), 0);
            }
            assert(self.delivered@ + decode(self@) =~= self.delivered@);
        } else {
            let e = Seq::<u8>::empty();
            assert(decode(self.received@ + e) == self.delivered@ + decode(self@ + e));
            assert(self.received@ + e =~= self.received@);
            assert(self@ + e =~= self@);
        }
    }

    /// A decoder with an empty buffer.
    pub fn new() -> (r: Lines)
        ensures
            r.wf(),
            r@ == Seq::<u8>::empty(),
            r.received() == Seq::<u8>::empty(),
            r.delivered() == Seq::<Seq<u8>>::empty(),
            !r.ended(),
    {
        let r = Lines {
            buf: buf_new(),
            clean: true,
            ended: false,
            received: Ghost(Seq::empty()),
            delivered: Ghost(Seq::empty()),
        };
        assert forall|more: Seq<u8>| #[trigger]
            decode(r.received@ + more) == r.delivered@ + decode(r@ + more) by {
            assert(r.received@ + more =~= more);
            assert(r@ + more =~= more);
            assert(r.delivered@ + decode(more) =~= decode(more));
        }
        r
    }

    /// The bytes buffered so far.
    pub fn buffered(&self) -> (r: &[u8])
        ensures
            r@ == self@,
    {
        buf_slice(&self.buf)
    }

    /// Hands out the buffer's bytes before the delimiter at `i` and keeps those
    /// after it.
    fn take_line(&mut self, i: usize) -> (r: BytesMut)
        requires
            crlf_at(old(self)@, i as int),
        ensures
            bytes_of(r) == old(self)@.take(i as int),
            final(self)@ == old(self)@.skip(i + 2),
            final(self).clean == old(self).clean,
            final(self).ended == old(self).ended,
            final(self).received == old(self).received,
            final(self).delivered == old(self).delivered,
    {
        let n = buf_slice(&self.buf).len();
        assert(i + 2 <= n);
        let mut line = buf_split_to(&mut self.buf, i + 2);
        buf_truncate(&mut line, i);
        proof {
            assert(bytes_of(line) =~= old(self)@.take(i as int));
        }
        line
    }

    /// Hands out the first line of the buffer, whose delimiter is at `i`, and
    /// records it as handed out.
    fn deliver(&mut self, i: usize) -> (r: BytesMut)
        requires
            old(self).wf(),
            !old(self).ended,
            find_crlf(old(self)@, 0) == Some(i as int),
        ensures
            final(self).wf(),
            !final(self).ended,
            final(self).received == old(self).received,
            final(self).delivered@ == old(self).delivered@ + seq![bytes_of(r)],
            first_line(old(self)@) == Some((bytes_of(r), final(self)@)),
    {
        proof {
            lemma_find_crlf(self@, 0);
        }
        let ghost before = self@;
        self.clean = false;
        let line = self.take_line(i);
        let ghost got = bytes_of(line);
        proof {
            assert forall|more: Seq<u8>| #[trigger]
                decode(self.received@ + more) == self.delivered@ + seq![got] + decode(
                    self@ + more,
                ) by {
                assert(decode(self.received@ + more) == self.delivered@ + decode(before + more));
                lemma_decode_first_line(before, more);
                assert(self.delivered@ + decode(before + more) =~= self.delivered@ + seq![got]
                    + decode(self@ + more));
            }
        }
        self.delivered = Ghost(self.delivered@ + seq![got]);
        line
    }

    /// Takes the first complete line out of the buffer, if it holds one.
    pub fn pop_line(&mut self) -> (r: Option<BytesMut>)
        requires
            old(self).wf(),
        ensures
            final(self).wf(),
            final(self).ended() == old(self).ended(),
            final(self).received() == old(self).received(),
            final(self).delivered() == old(self).delivered() + out(r),
            match first_line(old(self)@) {
                Some(p) => r is Some && bytes_of(r->0) == p.0 && final(self)@ == p.1,
                None => r is None && final(self)@ == old(self)@,
            },
    {
        assert(self.delivered@ + out(None) =~= self.delivered@);
        if self.clean {
            proof { lemma_no_first_crlf(self@); }
            return None;
        }
        match find_crlf_from(buf_slice(&self.buf), 0) {
            Some(i) => Some(self.deliver(i)),
            None => {
                proof { lemma_find_crlf(self@, 0); }
                self.clean = true;
                None
            },
        }
    }

    /// Appends a chunk to the buffer and takes the first complete line out of
    /// the whole, if it holds one. An empty chunk adds nothing. Once the
    /// decoder has ended, it takes no more bytes.
    pub fn feed(&mut self, chunk: &[u8]) -> (r: Option<BytesMut>)
        requires
            old(self).wf(),
            old(self)@.len() + chunk@.len() <= isize::MAX,
        ensures
            final(self).wf(),
            final(self).ended() == old(self).ended(),
            final(self).delivered() == old(self).delivered() + out(r),
            old(self).ended() ==> r is None && final(self)@ == old(self)@ && final(self).received()
                == old(self).received(),
            !old(self).ended() ==> final(self).received() == old(self).received() + chunk@,
            !old(self).ended() ==> match first_line(old(self)@ + chunk@) {
                Some(p) => r is Some && bytes_of(r->0) == p.0 && final(self)@ == p.1,
                None => r is None && final(self)@ == old(self)@ + chunk@,
            },
    {
        assert(self.delivered@ + out(None) =~= self.delivered@);
        if self.ended {
            return None;
        }
        if chunk.len() == 0 {
            assert(old(self)@ + chunk@ =~= old(self)@);
            assert(old(self).received@ + chunk@ =~= old(self).received@);
            return self.pop_line();
        }
        let len = buf_slice(&self.buf).len();
        let start: usize = if self.clean && len > 0 {
            len - 1
        } else {
            0
        };
        let ghost before = self@;
        let ghost seen = self.received@;
        buf_extend(&mut self.buf, chunk);
        self.clean = false;
        self.received = Ghost(self.received@ + chunk@);
        proof {
            assert forall|more: Seq<u8>| #[trigger]
                decode(self.received@ + more) == self.delivered@ + decode(self@ + more) by {
                assert(decode(seen + (chunk@ + more)) == self.delivered@ + decode(
                    before + (chunk@ + more),
                ));
                assert(seen + (chunk@ + more) =~= self.received@ + more);
                assert(before + (chunk@ + more) =~= self@ + more);
            }
        }
        assert(no_crlf_before(self@, start as int)) by {
            assert forall|j: int| 0 <= j < start implies !crlf_at(self@, j) by {
                assert(!crlf_at(before, j));
                assert(self@[j] == before[j] && self@[j + 1] == before[j + 1]);
            }
        }
        match find_crlf_from(buf_slice(&self.buf), start) {
            Some(i) => Some(self.deliver(i)),
            None => {
                proof { lemma_find_crlf(self@, 0); }
                self.clean = true;
                None
            },
        }
    }

    /// At the end of the stream: hands out a complete line still in the
    /// buffer, if there is one; else what is left as a last line, if anything
    /// is, and the decoder has ended.
    pub fn finish(&mut self) -> (r: Option<BytesMut>)
        requires
            old(self).wf(),
        ensures
            final(self).wf(),
            final(self).received() == old(self).received(),
            final(self).delivered() == old(self).delivered() + out(r),
            old(self).ended() ==> r is None && final(self).ended() && final(self)@ == old(self)@,
            !old(self).ended() ==> match first_line(old(self)@) {
                Some(p) => r is Some && bytes_of(r->0) == p.0 && final(self)@ == p.1
                    && !final(self).ended(),
                None => final(self).ended() && final(self)@ == Seq::<u8>::empty() && (old(
                    self,
                )@.len() == 0 ==> r is None) && (old(self)@.len() > 0 ==> r is Some && bytes_of(
                    r->0,
                ) == old(self)@),
            },
    {
        assert(self.delivered@ + out(None) =~= self.delivered@);
        if self.ended {
            return None;
        }
        if let Some(line) = self.pop_line() {
            return Some(line);
        }
        let ghost left = self@;
        proof {
            let e = Seq::<u8>::empty();
            assert(decode(self.received@ + e) == self.delivered@ + decode(self@ + e));
            assert(self.received@ + e =~= self.received@);
            assert(self@ + e =~= self@);
        }
        let mut rest = buf_new();
        std::mem::swap(&mut rest, &mut self.buf);
        self.clean = true;
        self.ended = true;
        if buf_slice(&rest).len() == 0 {
            assert(self.delivered@ + decode(left) =~= self.delivered@);
            None
        } else {
            self.delivered = Ghost(self.delivered@ + seq![left]);
            Some(rest)
        }
    }
}

/// The lines that come out of a decoder that holds `buf` and is then driven
/// through the chunks `cs` and the end of the stream: a complete line in the
/// buffer is handed out first (`pop_line`), else the next chunk is fed
/// (`feed`), and at the end what is left is flushed (`finish`).
pub open spec fn drive(buf: Seq<u8>, cs: Seq<Seq<u8>>) -> Seq<Seq<u8>>
    decreases cs.len(), buf.len(),
    via drive_decreases
{
    match first_line(buf) {
        Some(p) => seq![p.0] + drive(p.1, cs),
        None => if cs.len() == 0 {
            if buf.len() > 0 {
                seq![buf]
            } else {
                Seq::empty()
            }
        } else {
            drive(buf + cs[0], cs.drop_first())
        },
    }
}

#[via_fn]
proof fn drive_decreases(buf: Seq<u8>, cs: Seq<Seq<u8>>) {
    lemma_find_crlf(buf, 0);
}

/// The lines of the byte sequence `s` delivered whole, as one chunk.
pub open spec fn decode(s: Seq<u8>) -> Seq<Seq<u8>> {
    drive(s, Seq::empty())
}

/// Bytes appended after a complete line do not change that line.
proof fn lemma_first_line_append(buf: Seq<u8>, more: Seq<u8>)
    requires
        first_line(buf) is Some,
    ensures
        match first_line(buf) {
            Some(p) => first_line(buf + more) == Some((p.0, p.1 + more)),
            None => true,
        },
{
    lemma_find_crlf(buf, 0);
    let i = find_crlf(buf, 0)->0;
    let s = buf + more;
    assert(crlf_at(s, i));
    assert forall|j: int| 0 <= j < i implies !crlf_at(s, j) by {
        assert(!crlf_at(buf, j));
    }
    lemma_first_crlf(s, i);
    assert(s.take(i) =~= buf.take(i));
    assert(s.skip(i + 2) =~= buf.skip(i + 2) + more);
}

/// Driving the decoder through chunks gives the lines of their concatenation.
proof fn lemma_drive_flatten(buf: Seq<u8>, cs: Seq<Seq<u8>>)
    ensures
        drive(buf, cs) == decode(buf + cs.flatten()),
    decreases cs.len(), buf.len(),
{
    lemma_find_crlf(buf, 0);
    match first_line(buf) {
        Some(p) => {
            lemma_first_line_append(buf, cs.flatten());
            lemma_drive_flatten(p.1, cs);
        },
        None => {
            if cs.len() == 0 {
                assert(buf + cs.flatten() =~= buf);
            } else {
                lemma_drive_flatten(buf + cs[0], cs.drop_first());
                assert(buf + cs[0] + cs.drop_first().flatten() =~= buf + cs.flatten());
            }
        },
    }
}

/// Split invariance: however a byte stream is cut into chunks, the decoder
/// hands out the same lines as for the whole stream in one chunk.
pub proof fn lemma_split_invariance(cs: Seq<Seq<u8>>)
    ensures
        drive(Seq::empty(), cs) == drive(Seq::empty(), seq![cs.flatten()]),
{
    let e = Seq::<u8>::empty();
    lemma_drive_flatten(e, cs);
    lemma_drive_flatten(e, seq![cs.flatten()]);
    seq![cs.flatten()].lemma_flatten_one_element();
    assert(e + cs.flatten() =~= cs.flatten());
}

/// An empty chunk adds nothing to the concatenation of chunks.
proof fn lemma_flatten_insert_empty(cs: Seq<Seq<u8>>, k: int)
    requires
        0 <= k <= cs.len(),
    ensures
        cs.insert(k, Seq::empty()).flatten() == cs.flatten(),
    decreases k,
{
    let ins = cs.insert(k, Seq::empty());
    if k == 0 {
        assert(ins.drop_first() =~= cs);
        assert(ins.flatten() =~= cs.flatten());
    } else {
        lemma_flatten_insert_empty(cs.drop_first(), k - 1);
        assert(ins.drop_first() =~= cs.drop_first().insert(k - 1, Seq::empty()));
        assert(ins.first() == cs.first());
    }
}

/// Empty chunks are ignored: inserting one anywhere among the chunks leaves
/// the lines handed out unchanged.
pub proof fn lemma_empty_chunk_tolerance(cs: Seq<Seq<u8>>, k: int)
    requires
        0 <= k <= cs.len(),
    ensures
        drive(Seq::empty(), cs.insert(k, Seq::empty())) == drive(Seq::empty(), cs),
{
    let e = Seq::<u8>::empty();
    lemma_drive_flatten(e, cs);
    lemma_drive_flatten(e, cs.insert(k, Seq::empty()));
    lemma_flatten_insert_empty(cs, k);
}

} // verus!
