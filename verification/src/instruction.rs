//! The instructions of the program and their wire format.
//!
//! Byte 0 tells the instructions apart: `0` is `Init`, with nothing behind
//! it; `1` is `Announce`, followed by the url as a 4-byte little-endian
//! length and that many bytes of UTF-8, and by the 32-byte digest.

use crate::error::AnnounceError;
use crate::wire::{
    le_bytes, le_value, lemma_le_bytes_len, lemma_le_bytes_of_value, lemma_le_value_bound,
    lemma_le_value_of_bytes, lemma_pow256_values, put_le, read_le, read_ref, string_from_utf8,
};
use vstd::prelude::*;
use vstd::slice::{slice_subrange, slice_to_vec};
use vstd::utf8::{
    decode_utf8, decode_utf8_encode_utf8, encode_utf8, encode_utf8_decode_utf8,
    encode_utf8_valid_utf8, valid_utf8,
};

verus! {

/// First byte of an `Init` instruction.
pub const INIT_TAG: u8 = 0;

/// First byte of an `Announce` instruction.
pub const ANNOUNCE_TAG: u8 = 1;

/// Size in bytes of an `Announce` instruction with an empty url: the
/// least that any takes.
pub const ANNOUNCE_MIN_LEN: usize = 37;

/// Initializes a registry whose state account then anchors the chain of
/// announcements.
///
/// Accounts expected:
///
/// 0. `[signer]` The account of the caller
/// 1. `[writable]` The account that holds the registry state (41 bytes),
///    rent exempt and not yet initialized
/// 2. `[]` The rent sysvar
#[derive(Debug, PartialEq, Eq)]
pub struct Init {}

/// Appends an announcement to the chain of a registry.
///
/// Accounts expected:
///
/// 0. `[signer]` The account of the caller
/// 1. `[writable]` The account that holds the registry state, initialized
/// 2. `[]` The rent sysvar
/// 3. `[writable]` A fresh account for the announcement, rent exempt and
///    sized to hold the url with its length, the digest and a reference
#[derive(Debug, PartialEq, Eq)]
pub struct Announce {
    /// Where the announced content is found.
    pub url: String,
    /// Digest of the announced content.
    pub hash: [u8; 32],
}

/// A decoded instruction.
#[derive(Debug, PartialEq, Eq)]
pub enum AnnounceInstruction {
    Init(Init),
    Announce(Announce),
}

/// What an `Announce` instruction holds, as mathematical values.
pub struct AnnounceView {
    pub url: Seq<char>,
    pub hash: Seq<u8>,
}

/// What an instruction holds, as mathematical values.
pub enum AnnounceInstructionView {
    Init,
    Announce(AnnounceView),
}

impl View for Announce {
    type V = AnnounceView;

    open spec fn view(&self) -> AnnounceView {
        AnnounceView { url: self.url@, hash: self.hash@ }
    }
}

impl View for AnnounceInstruction {
    type V = AnnounceInstructionView;

    open spec fn view(&self) -> AnnounceInstructionView {
        match self {
            AnnounceInstruction::Init(_) => AnnounceInstructionView::Init,
            AnnounceInstruction::Announce(a) => AnnounceInstructionView::Announce(a@),
        }
    }
}

impl AnnounceView {
    /// The digest has its fixed width, and the length of the url in UTF-8
    /// fits the 4-byte prefix.
    pub open spec fn wf(self) -> bool {
        &&& self.hash.len() == 32
        &&& encode_utf8(self.url).len() <= u32::MAX
    }

    /// The bytes on the wire: tag, length prefix, url, digest.
    pub open spec fn encoding(self) -> Seq<u8> {
        seq![ANNOUNCE_TAG] + le_bytes(encode_utf8(self.url).len(), 4) + encode_utf8(self.url)
            + self.hash
    }

    /// The `Announce` instruction at the head of `bytes`, if there is one:
    /// the tag must be right, the length prefix must not overrun the
    /// buffer, the url must be well-formed UTF-8, and the digest must
    /// follow it in full.
    pub open spec fn decoding(bytes: Seq<u8>) -> Option<AnnounceView> {
        if bytes.len() < ANNOUNCE_MIN_LEN || bytes[0] != ANNOUNCE_TAG {
            None
        } else {
            let n = le_value(bytes.subrange(1, 5)) as int;
            if bytes.len() - ANNOUNCE_MIN_LEN < n {
                None
            } else if !valid_utf8(bytes.subrange(5, 5 + n)) {
                None
            } else {
                Some(
                    AnnounceView {
                        url: decode_utf8(bytes.subrange(5, 5 + n)),
                        hash: bytes.subrange(5 + n, 5 + n + 32),
                    },
                )
            }
        }
    }

    /// Decoding inverts encoding, whatever bytes follow the encoding in
    /// the buffer.
    pub proof fn lemma_round_trip(self, rest: Seq<u8>)
        requires
            self.wf(),
        ensures
            Self::decoding(self.encoding()) == Some(self),
            Self::decoding(self.encoding() + rest) == Some(self),
    {
        let text = encode_utf8(self.url);
        let n = text.len() as int;
        let prefix = le_bytes(text.len(), 4);
        let bytes = self.encoding() + rest;
        let alone = self.encoding();
        lemma_le_bytes_len(text.len(), 4);
        lemma_pow256_values();
        lemma_le_value_of_bytes(text.len(), 4);
        encode_utf8_valid_utf8(self.url);
        encode_utf8_decode_utf8(self.url);
        assert(bytes.subrange(1, 5) =~= prefix);
        assert(bytes.subrange(5, 5 + n) =~= text);
        assert(bytes.subrange(5 + n, 5 + n + 32) =~= self.hash);
        assert(alone.subrange(1, 5) =~= prefix);
        assert(alone.subrange(5, 5 + n) =~= text);
        assert(alone.subrange(5 + n, 5 + n + 32) =~= self.hash);
    }

    /// Encoding inverts decoding: an `Announce` that is read from a buffer
    /// is well formed and encodes to the head of that buffer.
    pub proof fn lemma_decoding_head(bytes: Seq<u8>)
        ensures
            Self::decoding(bytes) matches Some(a) ==> a.wf() && a.encoding().len() <= bytes.len()
                && a.encoding() == bytes.subrange(0, a.encoding().len() as int),
    {
        if let Some(a) = Self::decoding(bytes) {
            let prefix = bytes.subrange(1, 5);
            let n = le_value(prefix) as int;
            let text = bytes.subrange(5, 5 + n);
            lemma_le_bytes_of_value(prefix);
            lemma_le_value_bound(prefix);
            lemma_pow256_values();
            lemma_le_bytes_len(n as nat, 4);
            decode_utf8_encode_utf8(text);
            assert(a.encoding() =~= bytes.subrange(0, a.encoding().len() as int));
        }
    }
}

impl AnnounceInstructionView {
    /// Every `Init` is well formed; an `Announce` must be.
    pub open spec fn wf(self) -> bool {
        match self {
            AnnounceInstructionView::Init => true,
            AnnounceInstructionView::Announce(a) => a.wf(),
        }
    }

    /// The bytes on the wire.
    pub open spec fn encoding(self) -> Seq<u8> {
        match self {
            AnnounceInstructionView::Init => seq![INIT_TAG],
            AnnounceInstructionView::Announce(a) => a.encoding(),
        }
    }

    /// The instruction at the head of `bytes`, if there is one. An empty
    /// buffer and an unknown tag hold none.
    pub open spec fn decoding(bytes: Seq<u8>) -> Option<AnnounceInstructionView> {
        if bytes.len() == 0 {
            None
        } else if bytes[0] == INIT_TAG {
            Some(AnnounceInstructionView::Init)
        } else {
            match AnnounceView::decoding(bytes) {
                Some(a) => Some(AnnounceInstructionView::Announce(a)),
                None => None,
            }
        }
    }

    /// Decoding inverts encoding: every well-formed instruction is read
    /// back from its encoding, whatever bytes follow it in the buffer.
    pub proof fn lemma_round_trip(self, rest: Seq<u8>)
        requires
            self.wf(),
        ensures
            Self::decoding(self.encoding()) == Some(self),
            Self::decoding(self.encoding() + rest) == Some(self),
    {
        match self {
            AnnounceInstructionView::Init => {},
            AnnounceInstructionView::Announce(a) => {
                a.lemma_round_trip(rest);
            },
        }
    }

    /// Encoding inverts decoding: an instruction that is read from a
    /// buffer is well formed and encodes to the head of that buffer.
    pub proof fn lemma_decoding_head(bytes: Seq<u8>)
        ensures
            Self::decoding(bytes) matches Some(instruction) ==> instruction.wf()
                && instruction.encoding().len() <= bytes.len() && instruction.encoding()
                == bytes.subrange(0, instruction.encoding().len() as int),
    {
        match Self::decoding(bytes) {
            Some(AnnounceInstructionView::Init) => {
                assert(seq![INIT_TAG] =~= bytes.subrange(0, 1));
            },
            Some(AnnounceInstructionView::Announce(_)) => {
                AnnounceView::lemma_decoding_head(bytes);
            },
            None => {},
        }
    }

    /// A buffer whose first byte is neither tag holds no instruction.
    pub proof fn lemma_unknown_tag(bytes: Seq<u8>)
        requires
            bytes.len() > 0,
            bytes[0] != INIT_TAG,
            bytes[0] != ANNOUNCE_TAG,
        ensures
            Self::decoding(bytes) is None,
    {
    }
}

impl Init {
    /// The one byte of an `Init` instruction.
    pub fn encode(&self) -> (out: Vec<u8>)
        ensures
            out@ == AnnounceInstructionView::Init.encoding(),
    {
        let mut out: Vec<u8> = Vec::new();
        out.push(INIT_TAG);
        assert(out@ =~= seq![INIT_TAG]);
        out
    }

    /// Reads an `Init` instruction: `src` must start with its tag. Fails
    /// with `InvalidInstruction` otherwise.
    pub fn unpack(src: &[u8]) -> (r: Result<Init, AnnounceError>)
        ensures
            r is Ok <==> src@.len() > 0 && src@[0] == INIT_TAG,
            r matches Err(e) ==> e == AnnounceError::InvalidInstruction,
    {
        if src.len() == 0 || src[0] != INIT_TAG {
            return Err(AnnounceError::InvalidInstruction);
        }
        Ok(Init {  })
    }
}

impl Announce {
    /// The bytes of this instruction on the wire. Fails with
    /// `InvalidInstruction` when the url is too long for its 4-byte length
    /// prefix.
    pub fn encode(&self) -> (r: Result<Vec<u8>, AnnounceError>)
        ensures
            self@.wf() ==> r is Ok,
            r matches Ok(out) ==> self@.wf() && out@ == self@.encoding(),
            r matches Err(e) ==> e == AnnounceError::InvalidInstruction,
    {
        let text: &[u8] = self.url.as_str().as_bytes();
        if text.len() > 0xffff_ffff {
            return Err(AnnounceError::InvalidInstruction);
        }
        let mut out: Vec<u8> = Vec::new();
        out.push(ANNOUNCE_TAG);
        put_le(&mut out, text.len() as u64, 4);
        out.extend_from_slice(text);
        out.extend_from_slice(self.hash.as_slice());
        proof {
            lemma_le_bytes_len(text@.len(), 4);
            assert(out@ =~= self@.encoding());
        }
        Ok(out)
    }

    /// Reads an `Announce` instruction from the head of `src`. Fails with
    /// `InvalidInstruction` when the tag is another, `src` is shorter than
    /// the length prefix announces, or the url is not UTF-8; bytes behind
    /// the digest are ignored.
    pub fn unpack(src: &[u8]) -> (r: Result<Announce, AnnounceError>)
        ensures
            r matches Ok(a) ==> AnnounceView::decoding(src@) == Some(a@),
            r matches Err(e) ==> e == AnnounceError::InvalidInstruction && AnnounceView::decoding(
                src@,
            ) is None,
            src@.len() < ANNOUNCE_MIN_LEN ==> r is Err,
    {
        if src.len() < ANNOUNCE_MIN_LEN || src[0] != ANNOUNCE_TAG {
            return Err(AnnounceError::InvalidInstruction);
        }
        proof {
            lemma_le_value_bound(src@.subrange(1, 5));
            lemma_pow256_values();
        }
        let announced: u64 = read_le(src, 1, 4);
        if ((src.len() - ANNOUNCE_MIN_LEN) as u64) < announced {
            return Err(AnnounceError::InvalidInstruction);
        }
        let n: usize = announced as usize;
        let text: Vec<u8> = slice_to_vec(slice_subrange(src, 5, 5 + n));
        match string_from_utf8(text) {
            None => Err(AnnounceError::InvalidInstruction),
            Some(url) => {
                let hash: [u8; 32] = read_ref(src, 5 + n);
                proof {
                    encode_utf8_decode_utf8(url@);
                }
                Ok(Announce { url, hash })
            },
        }
    }
}

impl AnnounceInstruction {
    /// The bytes of this instruction on the wire. Fails with
    /// `InvalidInstruction` when it is an `Announce` whose url is too long
    /// for its length prefix.
    pub fn encode(&self) -> (r: Result<Vec<u8>, AnnounceError>)
        ensures
            self@.wf() ==> r is Ok,
            r matches Ok(out) ==> self@.wf() && out@ == self@.encoding(),
            r matches Err(e) ==> e == AnnounceError::InvalidInstruction,
    {
        match self {
            AnnounceInstruction::Init(init) => Ok(init.encode()),
            AnnounceInstruction::Announce(a) => a.encode(),
        }
    }

    /// Decodes the instruction at the head of `src`. Fails with
    /// `InvalidInstruction` when `src` is empty, its first byte is no
    /// known tag, or what follows the tag is no complete payload.
    pub fn unpack(src: &[u8]) -> (r: Result<AnnounceInstruction, AnnounceError>)
        ensures
            r matches Ok(instruction) ==> AnnounceInstructionView::decoding(src@) == Some(
                instruction@,
            ),
            r matches Err(e) ==> e == AnnounceError::InvalidInstruction
                && AnnounceInstructionView::decoding(src@) is None,
    {
        if src.len() == 0 {
            return Err(AnnounceError::InvalidInstruction);
        }
        if src[0] == INIT_TAG {
            Ok(AnnounceInstruction::Init(Init {  }))
        } else {
            match Announce::unpack(src) {
                Ok(a) => Ok(AnnounceInstruction::Announce(a)),
                Err(e) => Err(e),
            }
        }
    }
}

} // verus!
