//! Framing of one read: which of the bytes that a read returned are whole
//! lines, and where the next read starts.

use vstd::prelude::*;

verus! {

/// The byte that ends a line.
pub const NEWLINE: u8 = 10;

/// No line ends at any of the positions `from..to` of `bytes`.
pub open spec fn no_newline(bytes: Seq<u8>, from: int, to: int) -> bool {
    forall|j: int| from <= j < to ==> bytes[j] != NEWLINE
}

/// `n` is where `bytes` is cut: the position of its last newline, or 0 where
/// it holds none. What stands before `n` is whole lines, the last of them
/// without its newline; what stands from `n` on is read again.
pub open spec fn is_cut(bytes: Seq<u8>, n: int) -> bool {
    ||| 0 <= n < bytes.len() && bytes[n] == NEWLINE && no_newline(bytes, n + 1, bytes.len() as int)
    ||| n == 0 && no_newline(bytes, 0, bytes.len() as int)
}

/// The number of bytes of `bytes` that stand before its last newline.
pub open spec fn whole_len(bytes: Seq<u8>) -> int
    decreases bytes.len(),
{
    if bytes.len() == 0 {
        0
    } else if bytes.last() == NEWLINE {
        bytes.len() - 1
    } else {
        whole_len(bytes.drop_last())
    }
}

/// The whole lines of `bytes`: all of it that stands before its last newline.
pub open spec fn whole_lines(bytes: Seq<u8>) -> Seq<u8> {
    bytes.subrange(0, whole_len(bytes))
}

/// The number of newlines in `bytes`.
pub open spec fn newlines(bytes: Seq<u8>) -> nat
    decreases bytes.len(),
{
    if bytes.len() == 0 {
        0
    } else {
        newlines(bytes.drop_last()) + if bytes.last() == NEWLINE { 1nat } else { 0nat }
    }
}

/// The number of lines that `content` holds: none where it is empty, else one
/// more than it holds newlines.
pub open spec fn line_count(content: Seq<u8>) -> nat {
    if content.len() == 0 {
        0
    } else {
        newlines(content) + 1
    }
}

/// `whole_len` is the one cut of `bytes`.
pub proof fn lemma_whole_len_is_cut(bytes: Seq<u8>)
    ensures
        is_cut(bytes, whole_len(bytes)),
        0 <= whole_len(bytes) <= bytes.len(),
        forall|n: int| is_cut(bytes, n) ==> n == whole_len(bytes),
    decreases bytes.len(),
{
    if bytes.len() == 0 {
    } else if bytes.last() == NEWLINE {
        let n = bytes.len() - 1;
        assert(is_cut(bytes, n));
        assert forall|m: int| is_cut(bytes, m) implies m == n by {
            if m != n {
                if 0 <= m < bytes.len() && bytes[m] == NEWLINE {
                    assert(m + 1 <= n < bytes.len());
                }
            }
        }
    } else {
        let front = bytes.drop_last();
        lemma_whole_len_is_cut(front);
        let n = whole_len(front);
        assert forall|j: int| n + 1 <= j < bytes.len() && 0 <= j implies bytes[j] != NEWLINE by {
            if j < front.len() {
                assert(front[j] == bytes[j]);
            }
        }
        if 0 <= n < front.len() && front[n] == NEWLINE {
            assert(bytes[n] == front[n]);
            assert(is_cut(bytes, n));
        } else {
            assert(n == 0);
            assert forall|j: int| 0 <= j < bytes.len() implies bytes[j] != NEWLINE by {
                if j < front.len() {
                    assert(front[j] == bytes[j]);
                }
            }
            assert(is_cut(bytes, n));
        }
        assert forall|m: int| is_cut(bytes, m) implies m == n by {
            if 0 <= m < bytes.len() && bytes[m] == NEWLINE && no_newline(bytes, m + 1, bytes.len() as int) {
                assert(m < front.len());
                assert(front[m] == bytes[m]);
                assert forall|j: int| m + 1 <= j < front.len() implies front[j] != NEWLINE by {
                    assert(front[j] == bytes[j]);
                }
                assert(is_cut(front, m));
            } else {
                assert(m == 0);
                assert forall|j: int| 0 <= j < front.len() implies front[j] != NEWLINE by {
                    assert(front[j] == bytes[j]);
                }
                assert(is_cut(front, m));
            }
        }
    }
}

/// Finds where `buf` is cut.
pub fn cut_point(buf: &[u8]) -> (n: usize)
    ensures
        n as int == whole_len(buf@),
        n <= buf@.len(),
        is_cut(buf@, n as int),
{
    let mut i: usize = buf.len();
    while i > 0
        invariant
            i <= buf@.len(),
            no_newline(buf@, i as int, buf@.len() as int),
        decreases i,
    {
        if buf[i - 1] == NEWLINE {
            proof {
                assert(is_cut(buf@, i - 1));
                lemma_whole_len_is_cut(buf@);
            }
            return i - 1;
        }
        i -= 1;
    }
    proof {
        assert(is_cut(buf@, 0));
        lemma_whole_len_is_cut(buf@);
    }
    0
}

/// Counts the lines of `content`.
pub fn count_lines(content: &[u8]) -> (r: u64)
    requires
        content@.len() < u64::MAX,
    ensures
        r as nat == line_count(content@),
{
    let mut count: u64 = 0;
    let mut i: usize = 0;
    while i < content.len()
        invariant
            i <= content@.len(),
            content@.len() < u64::MAX,
            count as nat == newlines(content@.subrange(0, i as int)),
            count <= i,
        decreases content@.len() - i,
    {
        proof {
            let next = content@.subrange(0, i + 1);
            assert(next.drop_last() =~= content@.subrange(0, i as int));
            assert(next.last() == content@[i as int]);
        }
        if content[i] == NEWLINE {
            count += 1;
        }
        i += 1;
    }
    assert(content@.subrange(0, i as int) =~= content@);
    if content.len() == 0 {
        0
    } else {
        count + 1
    }
}

/// What one read of a watched file came to.
#[derive(Debug, PartialEq, Eq)]
pub struct ReadWindow {
    /// The number of bytes that were asked for.
    pub requested_size: u64,
    /// The number of bytes that the file gave.
    pub bytes_read: u64,
    /// The whole lines among those bytes.
    pub content: Vec<u8>,
    /// Where the next read starts: just behind `content`.
    pub next_offset: u64,
    /// The number of lines in `content`.
    pub line_count: u64,
}

/// Frames the bytes `buf` that a read at `offset` returned for a window of
/// `requested_size` bytes. The trailing partial line is left out of the
/// content and of the offset, so that the next read returns it again.
/// There is no window where the next offset would not fit in 64 bits.
pub fn frame(buf: &[u8], offset: u64, requested_size: u64) -> (r: Option<ReadWindow>)
    ensures
        r is Some <==> offset + whole_len(buf@) <= u64::MAX,
        r is Some ==> {
            let w = r->Some_0;
            &&& w.requested_size == requested_size
            &&& w.bytes_read == buf@.len()
            &&& w.content@ == whole_lines(buf@)
            &&& w.next_offset == offset + whole_len(buf@)
            &&& w.line_count == line_count(whole_lines(buf@))
        },
{
    let n: usize = cut_point(buf);
    let total: usize = buf.len();
    let advance: u64 = n as u64;
    match offset.checked_add(advance) {
        None => None,
        Some(next_offset) => {
            let mut content: Vec<u8> = Vec::new();
            let mut i: usize = 0;
            while i < n
                invariant
                    i <= n <= buf@.len(),
                    content@ == buf@.subrange(0, i as int),
                decreases n - i,
            {
                content.push(buf[i]);
                proof {
                    assert(content@ =~= buf@.subrange(0, i + 1));
                }
                i += 1;
            }
            proof {
                lemma_whole_len_is_cut(buf@);
                assert(content@.len() < u64::MAX);
            }
            let line_count = count_lines(content.as_slice());
            Some(ReadWindow { requested_size, bytes_read: total as u64, content, next_offset, line_count })
        },
    }
}

/// The bytes that a read of `window` bytes at `offset` gets from `file`.
pub open spec fn window_bytes(file: Seq<u8>, offset: int, window: int) -> Seq<u8> {
    if offset + window <= file.len() {
        file.subrange(offset, offset + window)
    } else {
        file.subrange(offset, file.len() as int)
    }
}

/// The content of a read of `window` bytes at `offset` of `file`.
pub open spec fn read_content(file: Seq<u8>, offset: int, window: int) -> Seq<u8> {
    whole_lines(window_bytes(file, offset, window))
}

/// Where the read that follows it starts.
pub open spec fn read_next_offset(file: Seq<u8>, offset: int, window: int) -> int {
    offset + whole_len(window_bytes(file, offset, window))
}

/// Where the reads of `windows` bytes each, the first at `offset` and each
/// other where the one before it stopped, have come to.
pub open spec fn replay_offset(file: Seq<u8>, offset: int, windows: Seq<int>) -> int
    decreases windows.len(),
{
    if windows.len() == 0 {
        offset
    } else {
        replay_offset(file, read_next_offset(file, offset, windows[0]), windows.skip(1))
    }
}

/// The contents of those reads, one behind the other.
pub open spec fn replay_content(file: Seq<u8>, offset: int, windows: Seq<int>) -> Seq<u8>
    decreases windows.len(),
{
    if windows.len() == 0 {
        Seq::empty()
    } else {
        read_content(file, offset, windows[0]) + replay_content(
            file,
            read_next_offset(file, offset, windows[0]),
            windows.skip(1),
        )
    }
}

/// No newline of `bytes` stands behind its cut.
pub proof fn lemma_newlines_stand_before_cut(bytes: Seq<u8>, at: int)
    requires
        0 <= at < bytes.len(),
        bytes[at] == NEWLINE,
    ensures
        at <= whole_len(bytes),
{
    lemma_whole_len_is_cut(bytes);
}

/// Line integrity of one read: its content is the bytes of the file from the
/// offset to the next offset, and it never ends inside a line: where the
/// read moves on at all, a newline stands at the next offset.
pub proof fn lemma_read_keeps_lines_whole(file: Seq<u8>, offset: int, window: int)
    requires
        0 <= offset <= file.len(),
        0 <= window,
    ensures
        offset <= read_next_offset(file, offset, window) <= file.len(),
        read_content(file, offset, window) == file.subrange(offset, read_next_offset(file, offset, window)),
        read_next_offset(file, offset, window) > offset ==> {
            &&& read_next_offset(file, offset, window) < file.len()
            &&& file[read_next_offset(file, offset, window)] == NEWLINE
        },
        read_next_offset(file, offset, window) <= offset || read_next_offset(file, offset, window)
            <= whole_len(file),
{
    let bytes = window_bytes(file, offset, window);
    lemma_whole_len_is_cut(bytes);
    let n = whole_len(bytes);
    let next = offset + n;
    assert(read_content(file, offset, window) =~= file.subrange(offset, next));
    if n > 0 {
        assert(bytes[n] == file[offset + n]);
        lemma_newlines_stand_before_cut(file, next);
    }
}

/// A read whose window reaches the end of the file stops at the last
/// newline of the file, where the offset is not behind it.
pub proof fn lemma_read_reaches_last_newline(file: Seq<u8>, offset: int, window: int)
    requires
        0 <= offset <= whole_len(file),
        0 <= window,
        offset + window >= file.len(),
    ensures
        read_next_offset(file, offset, window) == whole_len(file),
{
    lemma_whole_len_is_cut(file);
    let bytes = window_bytes(file, offset, window);
    assert(bytes =~= file.subrange(offset, file.len() as int));
    lemma_whole_len_is_cut(bytes);
    let p = whole_len(file);
    let n = p - offset;
    if 0 <= p < file.len() && file[p] == NEWLINE && no_newline(file, p + 1, file.len() as int) {
        assert(bytes[n] == file[p]);
        assert forall|j: int| n + 1 <= j < bytes.len() implies bytes[j] != NEWLINE by {
            assert(bytes[j] == file[offset + j]);
        }
        assert(is_cut(bytes, n));
    } else {
        assert(p == 0 && offset == 0);
        assert(bytes =~= file);
    }
}

/// Line integrity of successive reads: their contents, one behind the
/// other, are the bytes of the file from the first offset to the last, and
/// the last offset is not behind the last newline of the file unless the
/// first one was.
pub proof fn lemma_replay_reproduces_file(file: Seq<u8>, offset: int, windows: Seq<int>)
    requires
        0 <= offset <= file.len(),
        forall|i: int| 0 <= i < windows.len() ==> windows[i] >= 0,
    ensures
        offset <= replay_offset(file, offset, windows) <= file.len(),
        replay_content(file, offset, windows) == file.subrange(offset, replay_offset(file, offset, windows)),
        replay_offset(file, offset, windows) <= offset || replay_offset(file, offset, windows) <= whole_len(
            file,
        ),
    decreases windows.len(),
{
    if windows.len() == 0 {
        assert(replay_content(file, offset, windows) =~= file.subrange(offset, offset));
    } else {
        let next = read_next_offset(file, offset, windows[0]);
        let rest = windows.skip(1);
        lemma_read_keeps_lines_whole(file, offset, windows[0]);
        assert forall|i: int| 0 <= i < rest.len() implies rest[i] >= 0 by {
            assert(rest[i] == windows[i + 1]);
        }
        lemma_replay_reproduces_file(file, next, rest);
        let last = replay_offset(file, next, rest);
        assert(file.subrange(offset, next) + file.subrange(next, last) =~= file.subrange(offset, last));
    }
}

} // verus!
