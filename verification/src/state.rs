//! The two persisted records and their fixed binary layouts.
//!
//! A registry state is a 1-byte flag, a 32-byte account reference and an
//! 8-byte little-endian counter. An announcement is a 4-byte little-endian
//! length, that many bytes of UTF-8, a 32-byte digest and a 32-byte account
//! reference. Both are read from the head of a storage slot, which may be
//! longer than the record, and written over the head of a slot without
//! changing its length.

use crate::error::AnnounceError;
use crate::wire::{
    le_bytes, le_value, lemma_le_bytes_len, lemma_le_bytes_of_value, lemma_le_value_bound,
    lemma_le_value_of_bytes, lemma_pow256_values, lemma_written, overwrite, put_le, read_le,
    read_ref, string_from_utf8, written,
};
use vstd::prelude::*;
use vstd::slice::{slice_subrange, slice_to_vec};
use vstd::utf8::{
    decode_utf8, decode_utf8_encode_utf8, encode_utf8, encode_utf8_decode_utf8,
    encode_utf8_valid_utf8, valid_utf8,
};

verus! {

/// Size in bytes of an encoded registry state.
pub const STATE_LEN: usize = 41;

/// Size in bytes of an encoded announcement with an empty url: the least
/// that any announcement takes.
pub const ANNOUNCEMENT_MIN_LEN: usize = 68;

/// The reference that stands for "no account": 32 zero bytes. It ends the
/// chain of announcements.
pub open spec fn empty_ref() -> Seq<u8> {
    Seq::new(32, |i: int| 0u8)
}

/// The reference that stands for "no account".
pub fn empty_reference() -> (r: [u8; 32])
    ensures
        r@ == empty_ref(),
{
    let r: [u8; 32] = [0u8; 32];
    assert(r@ =~= empty_ref());
    r
}

/// State of a registry: the anchor of the chain of announcements.
#[derive(Debug, PartialEq, Eq)]
pub struct AnnounceState {
    /// False until the registry has been initialized.
    pub is_initialized: bool,
    /// The account of the announcement appended last, or the empty
    /// reference while there is none.
    pub root_pubkey: [u8; 32],
    /// How many announcements have been appended.
    pub current_index: u64,
}

/// What a registry state holds, as mathematical values.
pub struct AnnounceStateView {
    pub is_initialized: bool,
    pub root_pubkey: Seq<u8>,
    pub current_index: u64,
}

impl View for AnnounceState {
    type V = AnnounceStateView;

    open spec fn view(&self) -> AnnounceStateView {
        AnnounceStateView {
            is_initialized: self.is_initialized,
            root_pubkey: self.root_pubkey@,
            current_index: self.current_index,
        }
    }
}

impl AnnounceStateView {
    /// The reference has its fixed width.
    pub open spec fn wf(self) -> bool {
        self.root_pubkey.len() == 32
    }

    /// The state of a registry right after initialization.
    pub open spec fn fresh() -> AnnounceStateView {
        AnnounceStateView { is_initialized: true, root_pubkey: empty_ref(), current_index: 0 }
    }

    /// The 41 bytes of the layout.
    pub open spec fn encoding(self) -> Seq<u8> {
        seq![if self.is_initialized { 1u8 } else { 0u8 }] + self.root_pubkey + le_bytes(
            self.current_index as nat,
            8,
        )
    }

    /// The state at the head of `bytes`, if there is one: `bytes` must hold
    /// the whole layout and start with a flag byte of 0 or 1.
    pub open spec fn decoding(bytes: Seq<u8>) -> Option<AnnounceStateView> {
        if bytes.len() < STATE_LEN || bytes[0] > 1 {
            None
        } else {
            Some(
                AnnounceStateView {
                    is_initialized: bytes[0] == 1,
                    root_pubkey: bytes.subrange(1, 33),
                    current_index: le_value(bytes.subrange(33, 41)) as u64,
                },
            )
        }
    }

    /// The encoding has the layout's fixed size.
    pub proof fn lemma_encoding_len(self)
        requires
            self.wf(),
        ensures
            self.encoding().len() == STATE_LEN,
    {
        lemma_le_bytes_len(self.current_index as nat, 8);
    }

    /// Decoding inverts encoding: a state is read back from its encoding,
    /// whatever bytes follow the encoding in the buffer.
    pub proof fn lemma_round_trip(self, rest: Seq<u8>)
        requires
            self.wf(),
        ensures
            Self::decoding(self.encoding()) == Some(self),
            Self::decoding(self.encoding() + rest) == Some(self),
    {
        let count = le_bytes(self.current_index as nat, 8);
        let bytes = self.encoding() + rest;
        lemma_le_bytes_len(self.current_index as nat, 8);
        lemma_pow256_values();
        lemma_le_value_of_bytes(self.current_index as nat, 8);
        assert(bytes.subrange(1, 33) =~= self.root_pubkey);
        assert(bytes.subrange(33, 41) =~= count);
        assert(self.encoding().subrange(1, 33) =~= self.root_pubkey);
        assert(self.encoding().subrange(33, 41) =~= count);
    }

    /// A buffer shorter than the layout holds no state.
    pub proof fn lemma_short_buffer(bytes: Seq<u8>)
        requires
            bytes.len() < STATE_LEN,
        ensures
            Self::decoding(bytes) is None,
    {
    }

    /// Encoding inverts decoding: a state that is read from a buffer is
    /// well formed and encodes to the first 41 bytes of that buffer.
    pub proof fn lemma_decoding_head(bytes: Seq<u8>)
        ensures
            Self::decoding(bytes) matches Some(state) ==> state.wf() && state.encoding()
                == bytes.subrange(0, STATE_LEN as int),
    {
        if let Some(state) = Self::decoding(bytes) {
            let count = bytes.subrange(33, 41);
            lemma_le_bytes_of_value(count);
            lemma_le_value_bound(count);
            lemma_pow256_values();
            assert(state.encoding() =~= bytes.subrange(0, STATE_LEN as int));
        }
    }
}

impl AnnounceState {
    /// Whether the registry has been initialized.
    pub fn is_initialized(&self) -> (b: bool)
        ensures
            b == self@.is_initialized,
    {
        self.is_initialized
    }

    /// The layout of this state as a fresh vector of bytes.
    pub fn encode(&self) -> (out: Vec<u8>)
        ensures
            out@ == self@.encoding(),
            out@.len() == STATE_LEN,
    {
        let mut out: Vec<u8> = Vec::new();
        out.push(if self.is_initialized { 1u8 } else { 0u8 });
        out.extend_from_slice(self.root_pubkey.as_slice());
        put_le(&mut out, self.current_index, 8);
        proof {
            lemma_le_bytes_len(self.current_index as nat, 8);
            assert(out@ =~= self@.encoding());
        }
        out
    }

    /// Reads the state at the head of `src`. Fails with
    /// `InvalidInstruction` when `src` is shorter than the layout or its
    /// flag byte is neither 0 nor 1; bytes behind the layout are ignored.
    pub fn unpack(src: &[u8]) -> (r: Result<AnnounceState, AnnounceError>)
        ensures
            r matches Ok(state) ==> AnnounceStateView::decoding(src@) == Some(state@),
            r matches Err(e) ==> e == AnnounceError::InvalidInstruction
                && AnnounceStateView::decoding(src@) is None,
            src@.len() < STATE_LEN ==> r is Err,
    {
        if src.len() < STATE_LEN || src[0] > 1 {
            return Err(AnnounceError::InvalidInstruction);
        }
        let root_pubkey: [u8; 32] = read_ref(src, 1);
        let current_index: u64 = read_le(src, 33, 8);
        Ok(AnnounceState { is_initialized: src[0] == 1, root_pubkey, current_index })
    }

    /// Writes the layout over the first 41 bytes of `dst`, whose length
    /// and remaining bytes stay as they were. Fails with
    /// `InvalidInstruction`, writing nothing, when `dst` is shorter than
    /// the layout.
    pub fn pack(&self, dst: &mut [u8]) -> (r: Result<(), AnnounceError>)
        ensures
            old(dst)@.len() >= STATE_LEN ==> r is Ok && final(dst)@ == written(
                old(dst)@,
                self@.encoding(),
            ) && AnnounceStateView::decoding(final(dst)@) == Some(self@),
            old(dst)@.len() < STATE_LEN ==> r == Err::<(), AnnounceError>(
                AnnounceError::InvalidInstruction,
            ) && final(dst)@ == old(dst)@,
            final(dst)@.len() == old(dst)@.len(),
    {
        if dst.len() < STATE_LEN {
            return Err(AnnounceError::InvalidInstruction);
        }
        let image: Vec<u8> = self.encode();
        proof {
            lemma_written(dst@, image@);
            self@.lemma_round_trip(dst@.skip(STATE_LEN as int));
        }
        overwrite(dst, image.as_slice());
        Ok(())
    }
}

/// One announcement: a node of the chain.
#[derive(Debug, PartialEq, Eq)]
pub struct Announcement {
    /// Where the announced content is found.
    pub url: String,
    /// Digest of the announced content, as the caller gave it.
    pub hash: [u8; 32],
    /// The account of the announcement that was the root when this one was
    /// written, or the empty reference for the first.
    pub next: [u8; 32],
}

/// What an announcement holds, as mathematical values.
pub struct AnnouncementView {
    pub url: Seq<char>,
    pub hash: Seq<u8>,
    pub next: Seq<u8>,
}

impl View for Announcement {
    type V = AnnouncementView;

    open spec fn view(&self) -> AnnouncementView {
        AnnouncementView { url: self.url@, hash: self.hash@, next: self.next@ }
    }
}

impl AnnouncementView {
    /// Digest and reference have their fixed width, and the length of the
    /// url in UTF-8 fits the 4-byte prefix.
    pub open spec fn wf(self) -> bool {
        &&& self.hash.len() == 32
        &&& self.next.len() == 32
        &&& encode_utf8(self.url).len() <= u32::MAX
    }

    /// The bytes of the layout: length prefix, url, digest, reference.
    pub open spec fn encoding(self) -> Seq<u8> {
        le_bytes(encode_utf8(self.url).len(), 4) + encode_utf8(self.url) + self.hash + self.next
    }

    /// The announcement at the head of `bytes`, if there is one: the
    /// prefix must not overrun the buffer, the url must be well-formed
    /// UTF-8, and digest and reference must follow it in full.
    pub open spec fn decoding(bytes: Seq<u8>) -> Option<AnnouncementView> {
        if bytes.len() < ANNOUNCEMENT_MIN_LEN {
            None
        } else {
            let n = le_value(bytes.subrange(0, 4)) as int;
            if bytes.len() - ANNOUNCEMENT_MIN_LEN < n {
                None
            } else if !valid_utf8(bytes.subrange(4, 4 + n)) {
                None
            } else {
                Some(
                    AnnouncementView {
                        url: decode_utf8(bytes.subrange(4, 4 + n)),
                        hash: bytes.subrange(4 + n, 4 + n + 32),
                        next: bytes.subrange(4 + n + 32, 4 + n + 64),
                    },
                )
            }
        }
    }

    /// The announcement can be written into a slot of `room` bytes: its
    /// url fits the length prefix and its whole layout fits the slot.
    pub open spec fn fits(self, room: nat) -> bool {
        self.wf() && self.encoding().len() <= room
    }

    /// The encoding is 68 bytes longer than the url in UTF-8.
    pub proof fn lemma_encoding_len(self)
        requires
            self.wf(),
        ensures
            self.encoding().len() == ANNOUNCEMENT_MIN_LEN + encode_utf8(self.url).len(),
    {
        lemma_le_bytes_len(encode_utf8(self.url).len(), 4);
    }

    /// Decoding inverts encoding: an announcement is read back from its
    /// encoding, whatever bytes follow the encoding in the buffer.
    pub proof fn lemma_round_trip(self, rest: Seq<u8>)
        requires
            self.wf(),
        ensures
            Self::decoding(self.encoding()) == Some(self),
            Self::decoding(self.encoding() + rest) == Some(self),
    {
        let text = encode_utf8(self.url);
        let n = text.len() as int;
        let prefix = le_bytes(text.len(), 4);
        let bytes = self.encoding() + rest;
        lemma_le_bytes_len(text.len(), 4);
        lemma_pow256_values();
        lemma_le_value_of_bytes(text.len(), 4);
        encode_utf8_valid_utf8(self.url);
        encode_utf8_decode_utf8(self.url);
        assert(bytes.subrange(0, 4) =~= prefix);
        assert(bytes.subrange(4, 4 + n) =~= text);
        assert(bytes.subrange(4 + n, 4 + n + 32) =~= self.hash);
        assert(bytes.subrange(4 + n + 32, 4 + n + 64) =~= self.next);
        let alone = self.encoding();
        assert(alone.subrange(0, 4) =~= prefix);
        assert(alone.subrange(4, 4 + n) =~= text);
        assert(alone.subrange(4 + n, 4 + n + 32) =~= self.hash);
        assert(alone.subrange(4 + n + 32, 4 + n + 64) =~= self.next);
    }

    /// A buffer shorter than the least layout holds no announcement.
    pub proof fn lemma_short_buffer(bytes: Seq<u8>)
        requires
            bytes.len() < ANNOUNCEMENT_MIN_LEN,
        ensures
            Self::decoding(bytes) is None,
    {
    }

    /// Encoding inverts decoding: an announcement that is read from a
    /// buffer is well formed and encodes to the head of that buffer.
    pub proof fn lemma_decoding_head(bytes: Seq<u8>)
        ensures
            Self::decoding(bytes) matches Some(record) ==> record.fits(bytes.len())
                && record.encoding() == bytes.subrange(0, record.encoding().len() as int),
    {
        if let Some(record) = Self::decoding(bytes) {
            let prefix = bytes.subrange(0, 4);
            let n = le_value(prefix) as int;
            let text = bytes.subrange(4, 4 + n);
            lemma_le_bytes_of_value(prefix);
            lemma_le_value_bound(prefix);
            lemma_pow256_values();
            decode_utf8_encode_utf8(text);
            record.lemma_encoding_len();
            assert(record.encoding() =~= bytes.subrange(0, record.encoding().len() as int));
        }
    }
}

impl Announcement {
    /// The layout of this announcement as a fresh vector of bytes. Fails
    /// with `InvalidInstruction` when the url is too long for its 4-byte
    /// length prefix.
    pub fn encode(&self) -> (r: Result<Vec<u8>, AnnounceError>)
        ensures
            self@.wf() ==> r is Ok,
            r matches Ok(out) ==> self@.wf() && out@ == self@.encoding(),
            r matches Err(e) ==> e == AnnounceError::InvalidInstruction,
    {
        let text: &[u8] = self.url.as_str().as_bytes();
        if text.len() > 0xffff_ffff {
            return Err(AnnounceError::InvalidInstruction);
        }
        let mut out: Vec<u8> = Vec::new();
        put_le(&mut out, text.len() as u64, 4);
        out.extend_from_slice(text);
        out.extend_from_slice(self.hash.as_slice());
        out.extend_from_slice(self.next.as_slice());
        proof {
            lemma_le_bytes_len(text@.len(), 4);
            assert(out@ =~= self@.encoding());
        }
        Ok(out)
    }

    /// Reads the announcement at the head of `src`. Fails with
    /// `InvalidInstruction` when `src` is shorter than the layout that its
    /// length prefix announces, or the url is not UTF-8; bytes behind the
    /// layout are ignored.
    pub fn unpack(src: &[u8]) -> (r: Result<Announcement, AnnounceError>)
        ensures
            r matches Ok(record) ==> AnnouncementView::decoding(src@) == Some(record@),
            r matches Err(e) ==> e == AnnounceError::InvalidInstruction
                && AnnouncementView::decoding(src@) is None,
            src@.len() < ANNOUNCEMENT_MIN_LEN ==> r is Err,
    {
        if src.len() < ANNOUNCEMENT_MIN_LEN {
            return Err(AnnounceError::InvalidInstruction);
        }
        proof {
            lemma_le_value_bound(src@.subrange(0, 4));
            lemma_pow256_values();
        }
        let announced: u64 = read_le(src, 0, 4);
        if ((src.len() - ANNOUNCEMENT_MIN_LEN) as u64) < announced {
            return Err(AnnounceError::InvalidInstruction);
        }
        let n: usize = announced as usize;
        let text: Vec<u8> = slice_to_vec(slice_subrange(src, 4, 4 + n));
        match string_from_utf8(text) {
            None => Err(AnnounceError::InvalidInstruction),
            Some(url) => {
                let hash: [u8; 32] = read_ref(src, 4 + n);
                let next: [u8; 32] = read_ref(src, 4 + n + 32);
                proof {
                    encode_utf8_decode_utf8(url@);
                }
                Ok(Announcement { url, hash, next })
            },
        }
    }

    /// Writes the layout over the head of `dst`, whose length and
    /// remaining bytes stay as they were. Fails with `InvalidInstruction`,
    /// writing nothing, when the url is too long for its length prefix or
    /// `dst` is shorter than the layout.
    pub fn pack(&self, dst: &mut [u8]) -> (r: Result<(), AnnounceError>)
        ensures
            self@.fits(old(dst)@.len()) ==> r is Ok && final(dst)@ == written(
                old(dst)@,
                self@.encoding(),
            ) && AnnouncementView::decoding(final(dst)@) == Some(self@),
            !self@.fits(old(dst)@.len()) ==> r == Err::<(), AnnounceError>(
                AnnounceError::InvalidInstruction,
            ) && final(dst)@ == old(dst)@,
            final(dst)@.len() == old(dst)@.len(),
    {
        match self.encode() {
            Err(e) => Err(e),
            Ok(image) => {
                if dst.len() < image.len() {
                    return Err(AnnounceError::InvalidInstruction);
                }
                proof {
                    lemma_written(dst@, image@);
                    self@.lemma_round_trip(dst@.skip(image@.len() as int));
                }
                overwrite(dst, image.as_slice());
                Ok(())
            },
        }
    }
}

} // verus!
