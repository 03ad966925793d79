//! An append-only arena of text.
//!
//! Text is copied into one active buffer. When the active buffer cannot take
//! the next string whole, it is retired as it is and a larger one takes its
//! place: bytes that were handed out never move and never change.

use crate::power::{next_power_of_two, round_up_to_power_of_two, MAX_CAPACITY};
use crate::text::{lemma_boundary_extend, lemma_boundary_range, lemma_encode_concat};
use vstd::prelude::*;
use vstd::string::{StringExecFns, StringSliceAdditionalSpecFns};
use vstd::utf8::*;

verus! {

/// `String::with_capacity` returns an empty string. It panics when asked for
/// more than `isize::MAX` bytes, so such a request is left out.
pub assume_specification[ String::with_capacity ](capacity: usize) -> (s: String)
    requires
        capacity <= isize::MAX,
    ensures
        s@ == Seq::<char>::empty(),
;

/// The place of one string in an arena: the buffer it lies in, counted from
/// the oldest, and the byte range it takes there.
#[derive(Clone, Copy, Debug, PartialEq, Eq, Structural)]
pub struct Span {
    pub buf: usize,
    pub start: usize,
    pub end: usize,
}

/// What an arena holds: the bytes of each buffer, the retired ones first and
/// the active one last, and the capacity that the active one was made with.
pub struct ArenaView {
    pub regions: Seq<Seq<u8>>,
    pub capacity: nat,
}

impl ArenaView {
    /// Every buffer holds text, and the active one is within its capacity.
    pub open spec fn wf(self) -> bool {
        &&& self.regions.len() >= 1
        &&& forall|i: int| 0 <= i < self.regions.len() ==> valid_utf8(#[trigger] self.regions[i])
        &&& self.used() <= self.capacity
    }

    /// The number of bytes written to the active buffer.
    pub open spec fn used(self) -> nat {
        self.regions.last().len()
    }

    /// The number of retired buffers.
    pub open spec fn retired(self) -> nat {
        (self.regions.len() - 1) as nat
    }

    /// Whether the active buffer can take `len` more bytes.
    pub open spec fn has_room(self, len: nat) -> bool {
        self.capacity - self.used() >= len
    }

    /// The capacity of the buffer that is made when the active one cannot
    /// take `len` bytes.
    pub open spec fn grown_capacity(self, len: nat) -> nat {
        next_power_of_two((if self.capacity >= len { self.capacity } else { len }) + 1)
    }

    /// Whether `text` can be stored: there is room for its bytes, or a
    /// buffer of the grown capacity can still be allocated.
    pub open spec fn admits(self, text: Seq<char>) -> bool {
        let len = encode_utf8(text).len();
        self.has_room(len) || (self.capacity < MAX_CAPACITY && len < MAX_CAPACITY)
    }

    /// The arena after `text` has been stored: its bytes stand at the end of
    /// the active buffer where that has room for them, and in a new buffer
    /// of the grown capacity where it has not.
    pub open spec fn store(self, text: Seq<char>) -> ArenaView {
        let bytes = encode_utf8(text);
        if self.has_room(bytes.len()) {
            ArenaView {
                regions: self.regions.update(self.retired() as int, self.regions.last() + bytes),
                capacity: self.capacity,
            }
        } else {
            ArenaView {
                regions: self.regions.push(bytes),
                capacity: self.grown_capacity(bytes.len()),
            }
        }
    }

    /// An arena that holds nothing and has allocated nothing.
    pub open spec fn empty() -> ArenaView {
        ArenaView { regions: seq![Seq::<u8>::empty()], capacity: 0 }
    }

    /// The arena after each of `texts` has been stored in turn.
    pub open spec fn store_all(self, texts: Seq<Seq<char>>) -> ArenaView
        decreases texts.len(),
    {
        if texts.len() == 0 {
            self
        } else {
            self.store_all(texts.drop_last()).store(texts.last())
        }
    }

    /// Whether `span` marks off a text of this arena.
    pub open spec fn holds(self, span: Span) -> bool {
        &&& span.buf < self.regions.len()
        &&& span.start <= span.end <= self.regions[span.buf as int].len()
        &&& is_char_boundary(self.regions[span.buf as int], span.start as int)
        &&& is_char_boundary(self.regions[span.buf as int], span.end as int)
    }

    /// The bytes that `span` marks off.
    pub open spec fn bytes(self, span: Span) -> Seq<u8> {
        self.regions[span.buf as int].subrange(span.start as int, span.end as int)
    }

    /// The text that `span` marks off.
    pub open spec fn text(self, span: Span) -> Seq<char> {
        decode_utf8(self.bytes(span))
    }

    /// Storing more text keeps every span that the arena holds, with its
    /// bytes, whether or not a new buffer is made for it.
    pub proof fn lemma_store_keeps(self, text: Seq<char>, span: Span)
        requires
            self.wf(),
            self.holds(span),
        ensures
            self.store(text).holds(span),
            self.store(text).bytes(span) == self.bytes(span),
            self.store(text).text(span) == self.text(span),
    {
        let bytes = encode_utf8(text);
        let after = self.store(text);
        encode_utf8_valid_utf8(text);
        if self.has_room(bytes.len()) && span.buf == self.retired() {
            let active = self.regions.last();
            lemma_boundary_extend(active, bytes, span.start as int);
            lemma_boundary_extend(active, bytes, span.end as int);
            assert(after.bytes(span) =~= self.bytes(span));
        }
    }

    /// Storing text keeps the arena well formed.
    pub proof fn lemma_store_wf(self, text: Seq<char>)
        requires
            self.wf(),
        ensures
            self.store(text).wf(),
    {
        let bytes = encode_utf8(text);
        let after = self.store(text);
        encode_utf8_valid_utf8(text);
        if self.has_room(bytes.len()) {
            valid_utf8_concat(self.regions.last(), bytes);
        } else {
            crate::power::lemma_next_power_of_two((if self.capacity >= bytes.len() {
                self.capacity
            } else {
                bytes.len()
            }) + 1);
        }
        assert forall|i: int| 0 <= i < after.regions.len() implies valid_utf8(
            #[trigger] after.regions[i],
        ) by {
            if i < self.retired() {
                assert(after.regions[i] == self.regions[i]);
            }
        }
    }
}

/// An append-only store of text: one active buffer and the retired ones.
#[derive(Debug)]
pub struct Arena {
    buf: String,
    cap: usize,
    all: Vec<String>,
}

impl View for Arena {
    type V = ArenaView;

    closed spec fn view(&self) -> ArenaView {
        ArenaView {
            regions: Seq::new(
                (self.all.len() + 1) as nat,
                |i: int|
                    if i < self.all.len() {
                        encode_utf8(self.all[i]@)
                    } else {
                        encode_utf8(self.buf@)
                    },
            ),
            capacity: self.cap as nat,
        }
    }
}

impl Arena {
    /// Whether the arena is in order. Every arena that this module hands out
    /// is, and every method keeps it so.
    pub open spec fn wf(&self) -> bool {
        self@.wf()
    }

    /// An arena whose first buffer has the capacity `capacity` rounded up to
    /// a power of two.
    pub fn with_capacity(capacity: usize) -> (arena: Arena)
        requires
            capacity <= MAX_CAPACITY,
        ensures
            arena.wf(),
            arena@.regions == seq![Seq::<u8>::empty()],
            arena@.capacity == next_power_of_two(capacity as nat),
    {
        let cap = round_up_to_power_of_two(capacity);
        let arena = Arena { buf: String::with_capacity(cap), cap, all: Vec::new() };
        proof {
            assert(arena@.regions =~= seq![Seq::<u8>::empty()]);
        }
        arena
    }

    /// The capacity that the active buffer was made with.
    pub fn capacity(&self) -> (cap: usize)
        ensures
            cap == self@.capacity,
    {
        self.cap
    }

    /// The number of bytes written to the active buffer.
    pub fn used(&self) -> (used: usize)
        ensures
            used == self@.used(),
    {
        self.buf.as_str().as_bytes().len()
    }

    /// The number of retired buffers.
    pub fn retired(&self) -> (retired: usize)
        ensures
            retired == self@.retired(),
    {
        self.all.len()
    }

    /// Whether `string` can be stored: the active buffer has room for it, or
    /// a buffer of the grown capacity can still be allocated.
    pub fn admits(&self, string: &str) -> (admits: bool)
        requires
            self.wf(),
        ensures
            admits == self@.admits(string@),
    {
        let len = string.as_bytes().len();
        self.cap - self.buf.as_str().as_bytes().len() >= len || (self.cap < MAX_CAPACITY && len
            < MAX_CAPACITY)
    }

    /// Copies `string` into the arena and returns where it lies. The string
    /// goes to the end of the active buffer if that has room for all of it.
    /// If not, the active buffer is retired and the string opens a new one.
    pub fn store(&mut self, string: &str) -> (span: Span)
        requires
            old(self).wf(),
            old(self)@.admits(string@),
        ensures
            final(self).wf(),
            final(self)@ == old(self)@.store(string@),
            span.buf == final(self)@.retired(),
            span.end == final(self)@.used(),
            span.end - span.start == encode_utf8(string@).len(),
            final(self)@.holds(span),
            final(self)@.text(span) == string@,
    {
        let ghost before = self@;
        let ghost bytes = encode_utf8(string@);
        let len = string.as_bytes().len();
        let used = self.buf.as_str().as_bytes().len();
        if self.cap - used < len {
            let larger = if self.cap >= len {
                self.cap
            } else {
                len
            };
            let cap = round_up_to_power_of_two(larger + 1);
            let mut retired = String::with_capacity(cap);
            core::mem::swap(&mut self.buf, &mut retired);
            self.all.push(retired);
            self.cap = cap;
            proof {
                assert(self@.regions =~= before.regions.push(Seq::empty()));
            }
        }
        let ghost grown = self@;
        let ghost prior = self.buf@;
        let start = self.buf.as_str().as_bytes().len();
        self.buf.append(string);
        let span = Span { buf: self.all.len(), start, end: start + len };
        proof {
            let active = encode_utf8(prior);
            lemma_encode_concat(prior, string@);
            encode_utf8_valid_utf8(prior);
            encode_utf8_valid_utf8(string@);
            assert(self@.regions =~= grown.regions.update(
                grown.retired() as int,
                active + bytes,
            ));
            assert(self@.regions =~= before.store(string@).regions);
            before.lemma_store_wf(string@);
            is_char_boundary_start_end_of_seq(active);
            lemma_boundary_extend(active, bytes, active.len() as int);
            is_char_boundary_start_end_of_seq(active + bytes);
            assert(self@.bytes(span) =~= bytes);
            encode_utf8_decode_utf8(string@);
        }
        span
    }

    /// The string that `span` marks off.
    pub fn get(&self, span: Span) -> (string: &str)
        requires
            self.wf(),
            self@.holds(span),
        ensures
            string@ == self@.text(span),
    {
        let region = if span.buf < self.all.len() {
            &self.all[span.buf]
        } else {
            &self.buf
        };
        proof {
            assert(encode_utf8(region@) == self@.regions[span.buf as int]);
            lemma_boundary_range(encode_utf8(region@), span.start as int, span.end as int);
        }
        let (head, _) = region.as_str().split_at(span.end);
        let (_, string) = head.split_at(span.start);
        proof {
            assert(string.spec_bytes() =~= self@.bytes(span));
            encode_utf8_decode_utf8(string@);
        }
        string
    }
}

impl Clone for Arena {
    /// An arena of its own with the same buffers, byte for byte.
    fn clone(&self) -> (copy: Arena)
        ensures
            copy@ == self@,
    {
        let buf = if self.cap <= isize::MAX as usize {
            let mut buf = String::with_capacity(self.cap);
            buf.append(self.buf.as_str());
            assert(buf@ =~= self.buf@);
            buf
        } else {
            self.buf.clone()
        };
        let copy = Arena { buf, cap: self.cap, all: self.all.clone() };
        proof {
            assert(copy@.regions =~= self@.regions);
        }
        copy
    }
}

impl Default for Arena {
    /// An arena that has allocated nothing yet: its active buffer has
    /// capacity 0.
    fn default() -> (arena: Arena)
        ensures
            arena.wf(),
            arena@ == ArenaView::empty(),
    {
        let arena = Arena { buf: String::new(), cap: 0, all: Vec::new() };
        proof {
            assert(arena@.regions =~= seq![Seq::<u8>::empty()]);
        }
        arena
    }
}

} // verus!
