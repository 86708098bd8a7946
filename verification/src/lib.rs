//! Append-only string arena: a fixed-capacity byte buffer that stores many
//! short text fragments contiguously and hands out stable handles to them.
//!
//! The arena owns a buffer of at most `capacity` bytes and a write offset that
//! only grows. `add` appends the UTF-8 bytes of a fragment and returns a
//! [`Handle`] covering exactly the bytes just written; `get` reads a handle
//! back. Bytes once written are never moved or overwritten, so every handle
//! keeps reading its original content across later appends.
use vstd::prelude::*;
use vstd::string::StringSliceAdditionalSpecFns;
use vstd::utf8::encode_utf8;

verus! {

/// The only domain error: an append asked for more bytes than remain.
/// Carries the shortfall, the count of additional bytes that would have
/// been needed for the append to succeed.
#[derive(Debug, Clone, Copy, PartialEq, Eq, Structural)]
pub enum Error {
    ExceedsCapacity(usize),
}

/// A stable reference to one fragment stored in an arena: the byte range
/// `[start, end)` of the arena's buffer that the fragment occupies, together
/// with the (ghost) text it encodes.
///
/// A handle issued by [`StringArena::add`] is valid for the issuing arena and
/// stays valid across every later append; [`StringArena::get`] reads it back.
#[derive(Clone, Copy)]
pub struct Handle {
    start: usize,
    end: usize,
    text: Ghost<Seq<char>>,
}

impl Handle {
    /// Offset of the first byte of the fragment in the arena's buffer.
    pub closed spec fn spec_start(self) -> int {
        self.start as int
    }

    /// Offset one past the last byte of the fragment.
    pub closed spec fn spec_end(self) -> int {
        self.end as int
    }

    /// The text this handle was issued for.
    pub closed spec fn text(self) -> Seq<char> {
        self.text@
    }

    /// The bytes of arena `a` that this handle covers.
    pub closed spec fn content_in(self, a: StringArena) -> Seq<u8> {
        a@.subrange(self.spec_start(), self.spec_end())
    }

    /// The handle refers to a committed range of `a`'s buffer, and that range
    /// holds exactly the UTF-8 encoding of the handle's text.
    pub closed spec fn valid_for(self, a: StringArena) -> bool {
        &&& 0 <= self.spec_start() <= self.spec_end() <= a@.len()
        &&& self.content_in(a) == encode_utf8(self.text())
    }
}

/// A fixed-capacity, append-only arena of text fragments.
///
/// Its view (`self@`) is the sequence of bytes written so far; `spec_capacity`
/// gives the immutable byte capacity fixed at construction. The committed
/// length never exceeds the capacity.
pub struct StringArena {
    buf: Vec<u8>,
    cap: usize,
}

impl View for StringArena {
    type V = Seq<u8>;

    /// The bytes written so far, in order.
    closed spec fn view(&self) -> Seq<u8> {
        self.buf@
    }
}

impl StringArena {
    /// The committed prefix stays within the fixed capacity.
    #[verifier::type_invariant]
    spec fn wf(self) -> bool {
        self.buf@.len() <= self.cap
    }

    /// The byte capacity fixed at construction.
    pub closed spec fn spec_capacity(&self) -> nat {
        self.cap as nat
    }

    /// Create a new string arena with the given capacity in bytes.
    pub fn with_capacity(cap: usize) -> (a: Self)
        ensures
            a@ == Seq::<u8>::empty(),
            a.spec_capacity() == cap,
    {
        StringArena { buf: Vec::with_capacity(cap), cap }
    }

    /// Returns the number of bytes written so far.
    pub fn len(&self) -> (n: usize)
        ensures
            n == self@.len(),
            n <= self.spec_capacity(),
    {
        proof {
            use_type_invariant(&*self);
        }
        self.buf.len()
    }

    /// Returns whether nothing has been written yet.
    pub fn is_empty(&self) -> (b: bool)
        ensures
            b <==> self@.len() == 0,
    {
        self.len() == 0
    }

    /// Append a string to the arena.
    ///
    /// Succeeds exactly when the string's UTF-8 bytes fit into the remaining
    /// room, copies them behind the committed prefix, and returns a handle
    /// covering the bytes just written. On failure nothing changes and the
    /// error reports the shortfall: how many more bytes of room the append
    /// would have needed. Either way, every handle valid before the call is
    /// still valid and still reads its original bytes, and a returned handle
    /// lies entirely after every previously issued one.
    pub fn add(&mut self, s: &str) -> (r: Result<Handle, Error>)
        ensures
            final(self).spec_capacity() == old(self).spec_capacity(),
            final(self)@.len() <= final(self).spec_capacity(),
            r is Ok <==> old(self)@.len() + s.spec_bytes().len() <= old(self).spec_capacity(),
            (match r {
                Ok(h) => {
                    &&& final(self)@ == old(self)@ + s.spec_bytes()
                    &&& h.spec_start() == old(self)@.len()
                    &&& h.spec_end() == final(self)@.len()
                    &&& h.text() == s@
                    &&& h.valid_for(*final(self))
                    &&& forall|g: Handle|
                        #[trigger] g.valid_for(*old(self)) ==> g.spec_end() <= h.spec_start()
                },
                Err(e) => {
                    &&& final(self)@ == old(self)@
                    &&& e == Error::ExceedsCapacity(
                        ((old(self)@.len() + s.spec_bytes().len())
                            - old(self).spec_capacity()) as usize,
                    )
                },
            }),
            forall|g: Handle|
                #[trigger] g.valid_for(*old(self)) ==> g.valid_for(*final(self))
                    && g.content_in(*final(self)) == g.content_in(*old(self)),
    {
        proof {
            use_type_invariant(&*self);
        }
        let bytes: &[u8] = s.as_bytes();
        let n: usize = bytes.len();
        let start: usize = self.buf.len();
        let room: usize = self.cap - start;
        if n > room {
            return Err(Error::ExceedsCapacity(n - room));
        }
        let mut grown: Vec<u8> = Vec::new();
        core::mem::swap(&mut grown, &mut self.buf);
        let mut i: usize = 0;
        while i < n
            invariant
                i <= n,
                n == bytes@.len(),
                grown@ == old(self)@ + bytes@.subrange(0, i as int),
            decreases n - i,
        {
            grown.push(bytes[i]);
            proof {
                assert(grown@ =~= old(self)@ + bytes@.subrange(0, i + 1));
            }
            i = i + 1;
        }
        proof {
            assert(grown@ == old(self)@ + bytes@);
        }
        core::mem::swap(&mut grown, &mut self.buf);
        let h = Handle { start, end: start + n, text: Ghost(s@) };
        proof {
            assert(h.content_in(*self) =~= s.spec_bytes());
            assert forall|g: Handle| #[trigger] g.valid_for(*old(self)) implies g.valid_for(*self)
                && g.content_in(*self) == g.content_in(*old(self)) by {
                assert(g.content_in(*self) =~= g.content_in(*old(self)));
            }
        }
        Ok(h)
    }

    /// Returns the capacity fixed at construction.
    pub fn capacity(&self) -> (c: usize)
        ensures
            c == self.spec_capacity(),
    {
        self.cap
    }

    /// Read the fragment a handle refers to: the text it was issued for,
    /// viewing exactly the bytes of the buffer range the handle covers.
    pub fn get<'a>(&'a self, h: &Handle) -> (r: &'a str)
        requires
            h.valid_for(*self),
        ensures
            r@ == h.text(),
            r.spec_bytes() == h.content_in(*self),
    {
        let sl: &[u8] = vstd::slice::slice_subrange(self.buf.as_slice(), h.start, h.end);
        proof {
            vstd::utf8::encode_utf8_valid_utf8(h.text());
        }
        let r = bytes_as_str(sl);
        proof {
            vstd::utf8::encode_utf8_decode_utf8(r@);
            vstd::utf8::encode_utf8_decode_utf8(h.text());
        }
        r
    }
}

/// Handles issued back to back: each one starts where the one before ends,
/// as successive successful appends produce them.
pub open spec fn handles_chained(hs: Seq<Handle>) -> bool {
    forall|i: int| 0 < i < hs.len() ==> #[trigger] hs[i].spec_start() == hs[i - 1].spec_end()
}

/// The concatenation, in order, of the arena bytes the handles cover.
pub open spec fn handles_content_in(a: StringArena, hs: Seq<Handle>) -> Seq<u8>
    decreases hs.len(),
{
    if hs.len() == 0 {
        Seq::empty()
    } else {
        hs[0].content_in(a) + handles_content_in(a, hs.drop_first())
    }
}

/// The concatenation, in order, of the UTF-8 encodings of the handles' texts.
pub open spec fn handles_encoded_texts(hs: Seq<Handle>) -> Seq<u8>
    decreases hs.len(),
{
    if hs.len() == 0 {
        Seq::empty()
    } else {
        encode_utf8(hs[0].text()) + handles_encoded_texts(hs.drop_first())
    }
}

/// Law: for handles issued by a run of successful appends (each valid for the
/// arena and each starting where the one before ends), the concatenation of
/// the handles' byte contents equals the arena's buffer over the spanned
/// range, equals the concatenation of the appended texts' encodings, and its
/// length is the sum of the fragments' byte lengths.
pub proof fn lemma_chained_handles_concat(a: StringArena, hs: Seq<Handle>)
    requires
        hs.len() > 0,
        forall|i: int| 0 <= i < hs.len() ==> #[trigger] hs[i].valid_for(a),
        handles_chained(hs),
    ensures
        handles_content_in(a, hs) == a@.subrange(hs[0].spec_start(), hs.last().spec_end()),
        handles_content_in(a, hs) == handles_encoded_texts(hs),
        handles_content_in(a, hs).len() == hs.last().spec_end() - hs[0].spec_start(),
    decreases hs.len(),
{
    let rest = hs.drop_first();
    if hs.len() == 1 {
        assert(hs[0].valid_for(a));
        assert(handles_content_in(a, rest) =~= Seq::<u8>::empty());
        assert(handles_encoded_texts(rest) =~= Seq::<u8>::empty());
        assert(handles_content_in(a, hs) =~= hs[0].content_in(a));
        assert(handles_encoded_texts(hs) =~= encode_utf8(hs[0].text()));
    } else {
        assert forall|i: int| 0 <= i < rest.len() implies #[trigger] rest[i].valid_for(a) by {
            assert(rest[i] == hs[i + 1]);
        }
        assert forall|i: int| 0 < i < rest.len() implies #[trigger] rest[i].spec_start()
            == rest[i - 1].spec_end() by {
            assert(rest[i] == hs[i + 1]);
            assert(rest[i - 1] == hs[i]);
        }
        lemma_chained_handles_concat(a, rest);
        assert(rest[0] == hs[1]);
        assert(rest.last() == hs.last());
        assert(hs[0].valid_for(a));
        assert(hs.last().valid_for(a));
        assert(handles_content_in(a, rest) == a@.subrange(
            hs[0].spec_end(),
            hs.last().spec_end(),
        ));
        assert(hs[0].content_in(a) + a@.subrange(hs[0].spec_end(), hs.last().spec_end())
            =~= a@.subrange(hs[0].spec_start(), hs.last().spec_end()));
    }
}

/// Relies on core::str::from_utf8: on bytes that are valid UTF-8 (which the
/// precondition demands) it returns `Ok` of the string slice viewing exactly
/// those bytes.
#[verifier::external_body]
fn bytes_as_str(b: &[u8]) -> (r: &str)
    requires
        vstd::utf8::valid_utf8(b@),
    ensures
        r.spec_bytes() == b@,
{
    core::str::from_utf8(b).unwrap()
}

} // verus!
