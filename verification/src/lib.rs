//! Converts six-string guitar tablature written in plain ASCII into a tick
//! stream, and the tick stream into MusicXML and MIDI events.
use vstd::prelude::*;
use vstd::string::StringSliceAdditionalSpecFns;

use core::ops::{Range, RangeInclusive};

pub mod backend;
pub mod parser;
pub mod text;

verus! {

/// `RangeInclusive::start` hands out the lower bound of the range, the
/// `start` of its view.
pub assume_specification<Idx>[ RangeInclusive::<Idx>::start ](r: &RangeInclusive<Idx>) -> (s: &Idx)
    ensures
        *s == r@.start,
;

/// `RangeInclusive::end` hands out the upper bound of the range, the `end`
/// of its view.
pub assume_specification<Idx>[ RangeInclusive::<Idx>::end ](r: &RangeInclusive<Idx>) -> (e: &Idx)
    ensures
        *e == r@.end,
;

/// A thing that the parser can use as its lines.
pub trait ParseLines {
    /// The bytes of every line, without line ends.
    spec fn spec_lines(&self) -> Seq<Seq<u8>>;

    /// The value is sound: every line can be handed out.
    spec fn lines_wf(&self) -> bool;

    fn get_line(&self, idx: usize) -> (line: &[u8])
        requires
            self.lines_wf(),
            idx < self.spec_lines().len(),
        ensures
            line@ == self.spec_lines()[idx as int],
    ;

    fn line_count(&self) -> (n: usize)
        requires
            self.lines_wf(),
        ensures
            n == self.spec_lines().len(),
    ;
}

impl ParseLines for Vec<String> {
    open spec fn spec_lines(&self) -> Seq<Seq<u8>> {
        Seq::new(self@.len(), |i: int| vstd::utf8::encode_utf8(self@[i]@))
    }

    open spec fn lines_wf(&self) -> bool {
        true
    }

    fn get_line(&self, idx: usize) -> (line: &[u8]) {
        self[idx].as_str().as_bytes()
    }

    fn line_count(&self) -> (n: usize) {
        self.len()
    }
}

impl ParseLines for Vec<Vec<u8>> {
    open spec fn spec_lines(&self) -> Seq<Seq<u8>> {
        Seq::new(self@.len(), |i: int| self@[i]@)
    }

    open spec fn lines_wf(&self) -> bool {
        true
    }

    fn get_line(&self, idx: usize) -> (line: &[u8]) {
        self[idx].as_slice()
    }

    fn line_count(&self) -> (n: usize) {
        self.len()
    }
}

/// The indices at which `needle` stands in `haystack`, in rising order.
pub open spec fn positions(needle: u8, haystack: Seq<u8>) -> Seq<usize>
    decreases haystack.len(),
{
    if haystack.len() == 0 {
        Seq::empty()
    } else if haystack.last() == needle {
        positions(needle, haystack.drop_last()).push((haystack.len() - 1) as usize)
    } else {
        positions(needle, haystack.drop_last())
    }
}

/// Every position found is inside the haystack and holds the needle, and the
/// positions rise.
pub proof fn lemma_positions(needle: u8, haystack: Seq<u8>)
    requires
        haystack.len() <= usize::MAX,
    ensures
        forall|i: int|
            0 <= i < positions(needle, haystack).len() ==> (#[trigger] positions(
                needle,
                haystack,
            )[i]) < haystack.len() && haystack[positions(needle, haystack)[i] as int] == needle,
        forall|i: int, j: int|
            0 <= i < j < positions(needle, haystack).len() ==> (#[trigger] positions(
                needle,
                haystack,
            )[i]) < (#[trigger] positions(needle, haystack)[j]),
    decreases haystack.len(),
{
    if haystack.len() > 0 {
        let shorter = haystack.drop_last();
        let before = positions(needle, shorter);
        let now = positions(needle, haystack);
        lemma_positions(needle, shorter);
        assert forall|i: int| 0 <= i < now.len() implies (#[trigger] now[i]) < haystack.len()
            && haystack[now[i] as int] == needle by {
            if i < before.len() {
                assert(now[i] == before[i]);
                assert(shorter[before[i] as int] == haystack[before[i] as int]);
            }
        }
        assert forall|i: int, j: int| 0 <= i < j < now.len() implies (#[trigger] now[i]) < (
        #[trigger] now[j]) by {
            assert(now[i] == before[i]);
            if j < before.len() {
                assert(now[j] == before[j]);
            }
        }
    }
}

/// Finds every occurrence of `needle` in `haystack` with
/// `memchr::memchr_iter`. Trusted: the iterator yields the index of each
/// occurrence, all of them, from the first to the last.
#[verifier::external_body]
fn find_all(needle: u8, haystack: &[u8]) -> (found: Vec<usize>)
    ensures
        found@ == positions(needle, haystack@),
{
    memchr::memchr_iter(needle, haystack).collect()
}

/// The part of `s` from byte `start` up to byte `end`, to write into, with
/// the `IndexMut` of `String` for a range. Trusted: the part holds the bytes
/// of the range, and what it holds in the end takes their place in `s`,
/// between the bytes before the range and the bytes after it.
#[verifier::external_body]
fn string_range_mut(s: &mut String, start: usize, end: usize) -> (part: &mut str)
    requires
        start <= end <= vstd::utf8::encode_utf8(old(s)@).len(),
        vstd::utf8::is_char_boundary(vstd::utf8::encode_utf8(old(s)@), start as int),
        vstd::utf8::is_char_boundary(vstd::utf8::encode_utf8(old(s)@), end as int),
    ensures
        part.spec_bytes() == vstd::utf8::encode_utf8(old(s)@).subrange(start as int, end as int),
        vstd::utf8::encode_utf8(final(s)@) == vstd::utf8::encode_utf8(old(s)@).subrange(
            0,
            start as int,
        ) + final(part).spec_bytes() + vstd::utf8::encode_utf8(old(s)@).subrange(
            end as int,
            vstd::utf8::encode_utf8(old(s)@).len() as int,
        ),
{
    &mut s[start..end]
}

/// A buffer that holds lines. Like a `Vec<String>`, but allocates the data only once.
#[derive(Clone, Debug)]
pub struct BufLines {
    pub buf: String,
    /// The index of every line feed in `buf`, and the length of `buf` last.
    pub line_ends: Vec<usize>,
}

impl BufLines {
    /// The bytes of the buffer.
    pub open spec fn bytes(&self) -> Seq<u8> {
        vstd::utf8::encode_utf8(self.buf@)
    }

    /// The line ends are the line feeds of the buffer, and its length.
    pub open spec fn wf(&self) -> bool {
        self.bytes().len() <= usize::MAX && self.line_ends@ == positions(10, self.bytes()).push(
            self.bytes().len() as usize,
        )
    }

    /// The index of the first byte of line `line_idx`.
    pub open spec fn line_start(&self, line_idx: int) -> int {
        if line_idx == 0 {
            0
        } else {
            self.line_ends@[line_idx - 1] + 1
        }
    }

    /// The bytes of line `line_idx`, without the line feed.
    pub open spec fn line_bytes(&self, line_idx: int) -> Seq<u8> {
        self.bytes().subrange(self.line_start(line_idx), self.line_ends@[line_idx] as int)
    }

    /// In a sound buffer every line starts at or before its end, inside the buffer.
    pub proof fn lemma_line_bounds(&self, line_idx: int)
        requires
            self.wf(),
            0 <= line_idx < self.line_ends@.len(),
        ensures
            0 <= self.line_start(line_idx) <= self.line_ends@[line_idx] <= self.bytes().len(),
            line_idx + 1 < self.line_ends@.len() ==> self.line_ends@[line_idx]
                < self.line_ends@[line_idx + 1],
    {
        lemma_positions(10, self.bytes());
        let found = positions(10, self.bytes());
        if line_idx > 0 {
            assert(self.line_ends@[line_idx - 1] == found[line_idx - 1]);
        }
        if line_idx < found.len() {
            assert(self.line_ends@[line_idx] == found[line_idx]);
        }
        if line_idx + 1 < found.len() {
            assert(self.line_ends@[line_idx + 1] == found[line_idx + 1]);
        }
    }

    /// Splits `buf` into lines at its line feeds.
    pub fn from_string(buf: String) -> (lines: Self)
        ensures
            lines.buf == buf,
            lines.wf(),
    {
        let bytes = buf.as_str().as_bytes();
        let mut line_ends = find_all(10, bytes);
        line_ends.push(bytes.len());
        Self { buf, line_ends }
    }

    pub fn line_count(&self) -> (n: usize)
        ensures
            n == self.line_ends@.len(),
    {
        self.line_ends.len()
    }

    /// The number of bytes of line `line_idx`.
    pub fn line_len(&self, line_idx: usize) -> (n: usize)
        requires
            self.wf(),
            line_idx < self.line_ends@.len(),
        ensures
            n == self.line_bytes(line_idx as int).len(),
    {
        proof {
            self.lemma_line_bounds(line_idx as int);
        }
        let range = self.line_byte_range(line_idx);
        range.end - range.start
    }

    /// The bytes of the buffer that line `line_idx` takes, without its line feed.
    pub fn line_byte_range(&self, line_idx: usize) -> (r: Range<usize>)
        requires
            self.wf(),
            line_idx < self.line_ends@.len(),
        ensures
            r.start == self.line_start(line_idx as int),
            r.end == self.line_ends@[line_idx as int],
            r.start <= r.end <= self.bytes().len(),
    {
        proof {
            self.lemma_line_bounds(line_idx as int);
        }
        let start = if line_idx == 0 {
            0
        } else {
            self.line_ends[line_idx - 1] + 1
        };
        start..self.line_ends[line_idx]
    }

    /// The bytes of the buffer from the end of line `line_idx` to the end of
    /// the line after it, if there is a line after it.
    pub fn line_byte_range_checked(&self, line_idx: usize) -> (r: Option<Range<usize>>)
        ensures
            r is Some <==> line_idx + 1 < self.line_ends@.len(),
            r is Some ==> r->0.start == self.line_ends@[line_idx as int] && r->0.end
                == self.line_ends@[line_idx + 1],
    {
        if line_idx < self.line_ends.len() && self.line_ends.len() - line_idx > 1 {
            Some(self.line_ends[line_idx]..self.line_ends[line_idx + 1])
        } else {
            None
        }
    }
}

/// In valid UTF-8 a character starts right after every ASCII byte.
pub proof fn lemma_boundary_after_ascii(bytes: Seq<u8>, p: int)
    requires
        vstd::utf8::valid_utf8(bytes),
        0 <= p < bytes.len(),
        bytes[p] < 0x80,
    ensures
        vstd::utf8::is_char_boundary(bytes, p),
        vstd::utf8::is_char_boundary(bytes, p + 1),
{
    vstd::utf8::is_char_boundary_iff_not_is_continuation_byte(bytes, p);
    let tail = bytes.subrange(p, bytes.len() as int);
    vstd::utf8::valid_utf8_split(bytes, p);
    assert(tail[0] == bytes[p]);
    if p + 1 < bytes.len() {
        assert(vstd::utf8::is_char_boundary(tail, 1)) by {
            reveal_with_fuel(vstd::utf8::is_char_boundary, 2);
            reveal_with_fuel(vstd::utf8::valid_utf8, 2);
        }
        vstd::utf8::is_char_boundary_iff_not_is_continuation_byte(tail, 1);
        assert(tail[1] == bytes[p + 1]);
        vstd::utf8::is_char_boundary_iff_not_is_continuation_byte(bytes, p + 1);
    } else {
        vstd::utf8::is_char_boundary_start_end_of_seq(bytes);
    }
}

impl BufLines {
    /// In a sound buffer every line starts and ends where a character starts.
    pub proof fn lemma_line_on_boundaries(&self, line_idx: int)
        requires
            self.wf(),
            0 <= line_idx < self.line_ends@.len(),
        ensures
            vstd::utf8::is_char_boundary(self.bytes(), self.line_start(line_idx)),
            vstd::utf8::is_char_boundary(self.bytes(), self.line_ends@[line_idx] as int),
    {
        let bytes = self.bytes();
        vstd::utf8::encode_utf8_valid_utf8(self.buf@);
        vstd::utf8::is_char_boundary_start_end_of_seq(bytes);
        lemma_positions(10, bytes);
        let found = positions(10, bytes);
        if line_idx > 0 {
            assert(self.line_ends@[line_idx - 1] == found[line_idx - 1]);
            lemma_boundary_after_ascii(bytes, found[line_idx - 1] as int);
        }
        if line_idx < found.len() {
            assert(self.line_ends@[line_idx] == found[line_idx]);
            lemma_boundary_after_ascii(bytes, found[line_idx] as int);
        }
    }

    /// Line `idx`, without its line feed.
    pub fn get_line(&self, idx: usize) -> (line: &str)
        requires
            self.wf(),
            idx < self.line_ends@.len(),
        ensures
            line.spec_bytes() == self.line_bytes(idx as int),
    {
        let range = self.line_byte_range(idx);
        proof {
            self.lemma_line_on_boundaries(idx as int);
            self.lemma_line_bounds(idx as int);
            vstd::utf8::encode_utf8_valid_utf8(self.buf@);
        }
        let (head, _) = self.buf.as_str().split_at(range.end);
        proof {
            let bytes = self.bytes();
            vstd::utf8::valid_utf8_split(bytes, range.end as int);
            vstd::utf8::is_char_boundary_start_end_of_seq(head.spec_bytes());
            if 0 < range.start < range.end {
                assert(head.spec_bytes()[range.start - 1] == bytes[range.start - 1]);
                lemma_positions(10, bytes);
                assert(self.line_ends@[idx - 1] == positions(10, bytes)[idx - 1]);
                lemma_boundary_after_ascii(head.spec_bytes(), range.start - 1);
            }
        }
        let (_, line) = head.split_at(range.start);
        assert(line.spec_bytes() =~= self.line_bytes(idx as int));
        line
    }

    /// The text from the end of line `idx` to the end of the line after it:
    /// the line feed and the next line. Nothing where no line follows.
    pub fn get_line_checked(&self, idx: usize) -> (line: Option<&str>)
        requires
            self.wf(),
        ensures
            line is Some <==> idx + 1 < self.line_ends@.len(),
            line is Some ==> line->0.spec_bytes() == self.bytes().subrange(
                self.line_ends@[idx as int] as int,
                self.line_ends@[idx + 1] as int,
            ),
    {
        let range = match self.line_byte_range_checked(idx) {
            Some(range) => range,
            None => {
                return None;
            },
        };
        proof {
            let bytes = self.bytes();
            self.lemma_line_on_boundaries(idx + 1);
            self.lemma_line_bounds(idx as int);
            self.lemma_line_bounds(idx + 1);
            vstd::utf8::encode_utf8_valid_utf8(self.buf@);
            lemma_positions(10, bytes);
            assert(self.line_ends@[idx as int] == positions(10, bytes)[idx as int]);
        }
        let (head, _) = self.buf.as_str().split_at(range.end);
        proof {
            let bytes = self.bytes();
            vstd::utf8::valid_utf8_split(bytes, range.end as int);
            assert(head.spec_bytes()[range.start as int] == bytes[range.start as int]);
            lemma_boundary_after_ascii(head.spec_bytes(), range.start as int);
        }
        let (_, line) = head.split_at(range.start);
        assert(line.spec_bytes() =~= self.bytes().subrange(range.start as int, range.end as int));
        Some(line)
    }

    /// Line `idx`, without its line feed, to write into. What is written
    /// takes the place of the line in the buffer; the line ends stay as
    /// they are.
    pub fn get_line_mut(&mut self, idx: usize) -> (line: &mut str)
        requires
            old(self).wf(),
            idx < old(self).line_ends@.len(),
        ensures
            line.spec_bytes() == old(self).line_bytes(idx as int),
            final(self).bytes() == old(self).bytes().subrange(0, old(self).line_start(idx as int))
                + final(line).spec_bytes() + old(self).bytes().subrange(
                old(self).line_ends@[idx as int] as int,
                old(self).bytes().len() as int,
            ),
            final(self).line_ends == old(self).line_ends,
    {
        let range = self.line_byte_range(idx);
        proof {
            self.lemma_line_on_boundaries(idx as int);
            self.lemma_line_bounds(idx as int);
        }
        string_range_mut(&mut self.buf, range.start, range.end)
    }

    /// All lines, in their order.
    pub fn iter(&self) -> (lines: Vec<&str>)
        requires
            self.wf(),
        ensures
            lines@.len() == self.line_ends@.len(),
            forall|i: int|
                0 <= i < lines@.len() ==> (#[trigger] lines@[i]).spec_bytes() == self.line_bytes(i),
    {
        let mut lines: Vec<&str> = Vec::new();
        let mut i: usize = 0;
        while i < self.line_ends.len()
            invariant
                self.wf(),
                i <= self.line_ends@.len(),
                lines@.len() == i,
                forall|j: int|
                    0 <= j < i ==> (#[trigger] lines@[j]).spec_bytes() == self.line_bytes(j),
            decreases self.line_ends.len() - i,
        {
            lines.push(self.get_line(i));
            i = i + 1;
        }
        lines
    }
}

impl ParseLines for BufLines {
    open spec fn spec_lines(&self) -> Seq<Seq<u8>> {
        Seq::new(self.line_ends@.len(), |i: int| self.line_bytes(i))
    }

    open spec fn lines_wf(&self) -> bool {
        self.wf()
    }

    fn get_line(&self, idx: usize) -> (line: &[u8]) {
        let range = self.line_byte_range(idx);
        vstd::slice::slice_subrange(self.buf.as_str().as_bytes(), range.start, range.end)
    }

    fn line_count(&self) -> (n: usize) {
        self.line_ends.len()
    }
}

/// The stream index that follows the inclusive range `r`; 0 where the range
/// ends at `u32::MAX`.
pub open spec fn end_after(r: RangeInclusive<u32>) -> int {
    if r@.end == u32::MAX {
        0
    } else {
        r@.end + 1
    }
}

/// The number of indices in the inclusive range `r`, counted as a `u32`
/// counts: an empty range, which ends just before it starts, has 0.
pub fn rlen(r: &RangeInclusive<u32>) -> (len: u32)
    ensures
        len == if end_after(*r) >= r@.start {
            end_after(*r) - r@.start
        } else {
            end_after(*r) - r@.start + 0x1_0000_0000
        },
{
    let start: u32 = *r.start();
    let end: u32 = *r.end();
    end.wrapping_sub(start).wrapping_add(1)
}

/// Tests whether `elem` lies in the inclusive range `r`.
pub fn ricontains(r: &RangeInclusive<usize>, elem: usize) -> (inside: bool)
    ensures
        inside == (r@.start <= elem <= r@.end),
{
    elem >= *r.start() && elem <= *r.end()
}

/// Counts the decimal digits of `num`.
pub fn get_digit_cnt(num: usize) -> (cnt: u32)
    ensures
        cnt == spec_digit_cnt(num as nat),
{
    digit_cnt_usize(num)
}

/// Number of decimal digits of `num` (`0` has one digit).
pub open spec fn spec_digit_cnt(num: nat) -> nat
    decreases num,
{
    if num < 10 {
        1
    } else {
        1 + spec_digit_cnt(num / 10)
    }
}

/// Counts the decimal digits of `num`.
pub fn digit_cnt_usize(num: usize) -> (cnt: u32)
    ensures
        cnt == spec_digit_cnt(num as nat),
{
    let mut cnt: u32 = 1;
    let mut rest: usize = num;
    assert(pow10((cnt - 1) as nat) == 1);
    assert(rest as nat * 1 == rest);
    while rest >= 10
        invariant
            1 <= cnt <= 20,
            cnt + spec_digit_cnt(rest as nat) == 1 + spec_digit_cnt(num as nat),
            rest as nat * pow10((cnt - 1) as nat) <= num,
        decreases rest,
    {
        proof {
            let p = pow10((cnt - 1) as nat);
            assert(pow10(cnt as nat) == 10 * p);
            assert((rest as nat / 10) * (10 * p) <= rest as nat * p) by (nonlinear_arith);
            assert(pow10(cnt as nat) <= (rest as nat / 10) * pow10(cnt as nat))
                by (nonlinear_arith)
                requires
                    rest as nat / 10 >= 1,
            ;
            lemma_pow10_grows(cnt as nat);
        }
        rest = rest / 10;
        cnt = cnt + 1;
    }
    cnt
}

/// Ten to the power `e`.
pub open spec fn pow10(e: nat) -> nat
    decreases e,
{
    if e == 0 {
        1
    } else {
        10 * pow10((e - 1) as nat)
    }
}

proof fn lemma_pow10_grows(e: nat)
    ensures
        pow10(e) >= 1,
        e >= 20 ==> pow10(e) > usize::MAX,
    decreases e,
{
    if e > 0 {
        lemma_pow10_grows((e - 1) as nat);
    }
    if e >= 20 {
        assert(pow10(20) == 100000000000000000000nat) by {
            reveal_with_fuel(pow10, 21);
        }
        lemma_pow10_mono(20, e);
    }
}

proof fn lemma_pow10_mono(a: nat, b: nat)
    requires
        a <= b,
    ensures
        pow10(a) <= pow10(b),
    decreases b,
{
    if a < b {
        lemma_pow10_mono(a, (b - 1) as nat);
    }
}

} // verus!
