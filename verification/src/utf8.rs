//! Incremental decoding of the child's output bytes into characters.
//!
//! The read loop consumes the child's output one byte at a time; a
//! [`Utf8Decoder`] turns that byte stream into characters, reporting a
//! malformed sequence as soon as no completion of the bytes seen so far
//! could be well formed, so that the caller can fail with a decode error
//! instead of matching on garbage.

use vstd::prelude::*;

verus! {

/// Whether `b` is a continuation byte (`0b10xxxxxx`).
pub open spec fn is_continuation(b: u8) -> bool {
    0x80 <= b && b < 0xC0
}

/// How many bytes an encoding led by `lead` has; 0 when `lead` can lead no
/// well-formed encoding (continuation bytes, the always-overlong leads
/// `0xC0`/`0xC1`, and leads past `0xF4`).
pub open spec fn utf8_seq_len(lead: u8) -> int {
    if lead < 0x80 {
        1
    } else if 0xC2 <= lead && lead < 0xE0 {
        2
    } else if 0xE0 <= lead && lead < 0xF0 {
        3
    } else if 0xF0 <= lead && lead < 0xF5 {
        4
    } else {
        0
    }
}

/// The value encoded by a complete sequence: the lead's payload bits
/// followed by six payload bits of each continuation byte.
pub open spec fn utf8_value(bytes: Seq<u8>) -> int {
    if bytes.len() == 1 {
        bytes[0] as int
    } else if bytes.len() == 2 {
        (bytes[0] as int - 0xC0) * 0x40 + (bytes[1] as int - 0x80)
    } else if bytes.len() == 3 {
        (bytes[0] as int - 0xE0) * 0x1000 + (bytes[1] as int - 0x80) * 0x40 + (
        bytes[2] as int - 0x80)
    } else {
        (bytes[0] as int - 0xF0) * 0x40000 + (bytes[1] as int - 0x80) * 0x1000 + (
        bytes[2] as int - 0x80) * 0x40 + (bytes[3] as int - 0x80)
    }
}

/// The least value an encoding of `n` bytes may carry; anything below it
/// has a shorter encoding and is overlong.
pub open spec fn utf8_min_value(n: int) -> int {
    if n == 1 {
        0
    } else if n == 2 {
        0x80
    } else if n == 3 {
        0x800
    } else {
        0x10000
    }
}

/// Whether `v` is a Unicode scalar value: in range and not a surrogate.
pub open spec fn is_scalar_value(v: int) -> bool {
    (0 <= v && v < 0xD800) || (0xE000 <= v && v < 0x110000)
}

/// A complete well-formed encoding of one character: the length the lead
/// announces, continuation bytes throughout, not overlong, and a scalar
/// value.
pub open spec fn utf8_well_formed(bytes: Seq<u8>) -> bool {
    &&& bytes.len() >= 1
    &&& bytes.len() == utf8_seq_len(bytes[0])
    &&& (forall|i: int| 1 <= i < bytes.len() ==> is_continuation(bytes[i]))
    &&& utf8_min_value(bytes.len() as int) <= utf8_value(bytes)
    &&& is_scalar_value(utf8_value(bytes))
}

/// The second byte ranges a lead admits: outside them every completion
/// would be overlong, a surrogate, or past the Unicode range.
pub open spec fn second_byte_admissible(lead: u8, b1: u8) -> bool {
    &&& (lead == 0xE0 ==> b1 >= 0xA0)
    &&& (lead == 0xED ==> b1 < 0xA0)
    &&& (lead == 0xF0 ==> b1 >= 0x90)
    &&& (lead == 0xF4 ==> b1 < 0x90)
}

/// A viable prefix of an encoding: shorter than the lead announces,
/// continuation bytes throughout, and a second byte the lead admits. Every
/// nonempty viable prefix extends to a well-formed encoding
/// ([`lemma_viable_prefix_completes`]), and no other proper prefix does.
pub open spec fn utf8_viable_prefix(bytes: Seq<u8>) -> bool {
    bytes.len() == 0 || {
        &&& utf8_seq_len(bytes[0]) > bytes.len()
        &&& (forall|i: int| 1 <= i < bytes.len() ==> is_continuation(bytes[i]))
        &&& (bytes.len() >= 2 ==> second_byte_admissible(bytes[0], bytes[1]))
    }
}

/// Viability is no promise in vain: a nonempty viable prefix always has a
/// completion that is a well-formed encoding.
pub proof fn lemma_viable_prefix_completes(bytes: Seq<u8>)
    requires
        utf8_viable_prefix(bytes),
        bytes.len() > 0,
    ensures
        exists|rest: Seq<u8>| rest.len() > 0 && utf8_well_formed(bytes + rest),
{
    let lead = bytes[0];
    let n = utf8_seq_len(lead);
    let b1: u8 = if bytes.len() >= 2 {
        bytes[1]
    } else if lead == 0xE0 {
        0xA0
    } else if lead == 0xF0 {
        0x90
    } else {
        0x80
    };
    let b2: u8 = if bytes.len() >= 3 {
        bytes[2]
    } else {
        0x80
    };
    let whole: Seq<u8> = if n == 2 {
        seq![lead, 0x80u8]
    } else if n == 3 {
        seq![lead, b1, 0x80u8]
    } else {
        seq![lead, b1, b2, 0x80u8]
    };
    let rest = whole.skip(bytes.len() as int);
    assert(bytes + rest =~= whole);
    assert(utf8_well_formed(whole));
    assert(rest.len() > 0 && utf8_well_formed(bytes + rest));
}

/// What one more byte made of the bytes seen so far.
pub enum DecodeStep {
    /// The byte completed a well-formed encoding of this character.
    Emit(char),
    /// The bytes so far are a viable prefix of an encoding.
    NeedMore,
    /// No completion of the bytes so far is well formed.
    Malformed,
}

/// Relies on `char::from_u32`: `Some` exactly on Unicode scalar values,
/// returning the character with that value.
#[verifier::external_body]
fn char_from_u32(v: u32) -> (r: Option<char>)
    ensures
        r matches Some(c) ==> c as int == v as int,
        is_scalar_value(v as int) ==> r is Some,
{
    char::from_u32(v)
}

/// An incremental decoder over the child's output byte stream.
pub struct Utf8Decoder {
    pending: Vec<u8>,
}

impl Utf8Decoder {
    /// The bytes of the encoding in progress, not yet a whole character.
    pub closed spec fn pending_bytes(&self) -> Seq<u8> {
        self.pending@
    }

    /// The bytes held back are always a viable prefix of some encoding.
    pub open spec fn wf(&self) -> bool {
        utf8_viable_prefix(self.pending_bytes())
    }

    /// A fresh decoder, holding no bytes.
    pub fn new() -> (d: Utf8Decoder)
        ensures
            d.wf(),
            d.pending_bytes().len() == 0,
    {
        Utf8Decoder { pending: Vec::new() }
    }

    /// Consumes the next byte of the stream.
    ///
    /// Exactly one of the three outcomes holds of the bytes seen since the
    /// last character: they are a complete well-formed encoding (its
    /// character is emitted and nothing is held back), a viable prefix of
    /// one (held back for the next byte), or beyond rescue (reported
    /// malformed at the first byte that makes them so, and dropped).
    pub fn push(&mut self, b: u8) -> (r: DecodeStep)
        requires
            old(self).wf(),
        ensures
            final(self).wf(),
            ({
                let grown = old(self).pending_bytes() + seq![b];
                match r {
                    DecodeStep::Emit(c) => {
                        &&& utf8_well_formed(grown)
                        &&& c as int == utf8_value(grown)
                        &&& final(self).pending_bytes().len() == 0
                    },
                    DecodeStep::NeedMore => {
                        &&& utf8_viable_prefix(grown)
                        &&& grown.len() < utf8_seq_len(grown[0])
                        &&& final(self).pending_bytes() == grown
                    },
                    DecodeStep::Malformed => {
                        &&& (forall|rest: Seq<u8>| !utf8_well_formed(grown + rest))
                        &&& final(self).pending_bytes().len() == 0
                    },
                }
            }),
    {
        let ghost grown = old(self).pending_bytes() + seq![b];
        if self.pending.len() == 0 {
            if b < 0x80 {
                let c = char_from_u32(b as u32).unwrap();
                proof {
                    assert(grown =~= seq![b]);
                }
                DecodeStep::Emit(c)
            } else if 0xC2 <= b && b < 0xF5 {
                self.pending.push(b);
                proof {
                    assert(self.pending_bytes() =~= grown);
                }
                DecodeStep::NeedMore
            } else {
                proof {
                    assert forall|rest: Seq<u8>| !utf8_well_formed(grown + rest) by {
                        assert((grown + rest)[0] == b);
                    }
                }
                DecodeStep::Malformed
            }
        } else if !(0x80 <= b && b < 0xC0) {
            self.pending = Vec::new();
            proof {
                let k = grown.len() - 1;
                assert forall|rest: Seq<u8>| !utf8_well_formed(grown + rest) by {
                    assert((grown + rest)[k] == b);
                }
            }
            DecodeStep::Malformed
        } else {
            let lead = self.pending[0];
            if self.pending.len() == 1 && !second_byte_admitted(lead, b) {
                self.pending = Vec::new();
                proof {
                    lemma_inadmissible_second_byte(grown);
                }
                DecodeStep::Malformed
            } else {
                self.pending.push(b);
                proof {
                    assert(self.pending_bytes() =~= grown);
                    assert forall|i: int| 1 <= i < grown.len() implies is_continuation(
                        grown[i],
                    ) by {
                        if i < grown.len() - 1 {
                            assert(is_continuation(old(self).pending_bytes()[i]));
                        }
                    }
                }
                let need: usize = if lead < 0xE0 {
                    2
                } else if lead < 0xF0 {
                    3
                } else {
                    4
                };
                if self.pending.len() < need {
                    DecodeStep::NeedMore
                } else {
                    let v: u32 = if need == 2 {
                        (lead as u32 - 0xC0) * 0x40 + (self.pending[1] as u32 - 0x80)
                    } else if need == 3 {
                        (lead as u32 - 0xE0) * 0x1000 + (self.pending[1] as u32 - 0x80) * 0x40 + (
                        self.pending[2] as u32 - 0x80)
                    } else {
                        (lead as u32 - 0xF0) * 0x40000 + (self.pending[1] as u32 - 0x80) * 0x1000
                            + (self.pending[2] as u32 - 0x80) * 0x40 + (self.pending[3] as u32
                            - 0x80)
                    };
                    proof {
                        assert(v as int == utf8_value(grown));
                        assert(utf8_min_value(grown.len() as int) <= utf8_value(grown)
                            && is_scalar_value(utf8_value(grown)));
                    }
                    self.pending = Vec::new();
                    let c = char_from_u32(v).unwrap();
                    DecodeStep::Emit(c)
                }
            }
        }
    }
}

/// Whether the lead admits this second byte; outside these ranges every
/// completion would be overlong, a surrogate, or past the Unicode range.
fn second_byte_admitted(lead: u8, b1: u8) -> (r: bool)
    ensures
        r == second_byte_admissible(lead, b1),
{
    if lead == 0xE0 {
        b1 >= 0xA0
    } else if lead == 0xED {
        b1 < 0xA0
    } else if lead == 0xF0 {
        b1 >= 0x90
    } else if lead == 0xF4 {
        b1 < 0x90
    } else {
        true
    }
}

/// A two-byte prefix whose second byte the lead does not admit extends to
/// no well-formed encoding: every completion of the announced length is
/// overlong, a surrogate, or past the Unicode range.
proof fn lemma_inadmissible_second_byte(prefix: Seq<u8>)
    requires
        prefix.len() == 2,
        utf8_seq_len(prefix[0]) > 2,
        is_continuation(prefix[1]),
        !second_byte_admissible(prefix[0], prefix[1]),
    ensures
        forall|rest: Seq<u8>| !utf8_well_formed(prefix + rest),
{
    let lead = prefix[0];
    let b1 = prefix[1];
    assert forall|rest: Seq<u8>| !utf8_well_formed(prefix + rest) by {
        let bs = prefix + rest;
        if utf8_well_formed(bs) {
            assert(bs[0] == lead && bs[1] == b1);
            assert(is_continuation(bs[bs.len() - 1]));
            if bs.len() == 3 {
                assert(is_continuation(bs[2]));
                assert(utf8_value(bs) == (lead as int - 0xE0) * 0x1000 + (b1 as int - 0x80) * 0x40
                    + (bs[2] as int - 0x80));
                assert(false);
            } else {
                assert(bs.len() == 4);
                assert(is_continuation(bs[2]) && is_continuation(bs[3]));
                assert(utf8_value(bs) == (lead as int - 0xF0) * 0x40000 + (b1 as int - 0x80)
                    * 0x1000 + (bs[2] as int - 0x80) * 0x40 + (bs[3] as int - 0x80));
                assert(false);
            }
        }
    }
}

} // verus!
