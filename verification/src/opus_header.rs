//! The Opus identification header: the first packet of an Ogg Opus stream,
//! starting with the magic `OpusHead`, carrying the channel count at byte 9
//! and the output gain as a little-endian signed Q7.8 value at bytes 16..18.
use vstd::prelude::*;

use crate::error::Error;
use crate::fixed_point_gain::FixedPointGain;

verus! {

/// The eight magic bytes `OpusHead`.
pub open spec fn opus_magic() -> Seq<u8> {
    seq![0x4fu8, 0x70, 0x75, 0x73, 0x48, 0x65, 0x61, 0x64]
}

/// Whether `d` is an Opus identification header: long enough and starting
/// with the magic.
pub open spec fn is_opus_header(d: Seq<u8>) -> bool {
    d.len() >= 19 && d.subrange(0, 8) == opus_magic()
}

/// The unsigned 16-bit reading of `v`'s two's-complement representation.
pub open spec fn u16_of_i16(v: i16) -> int {
    if v >= 0 {
        v as int
    } else {
        v + 65536
    }
}

/// Low byte of the little-endian encoding of `v`.
pub open spec fn le16_lo(v: i16) -> u8 {
    (u16_of_i16(v) % 256) as u8
}

/// High byte of the little-endian encoding of `v`.
pub open spec fn le16_hi(v: i16) -> u8 {
    (u16_of_i16(v) / 256) as u8
}

/// The signed 16-bit value stored little-endian in bytes `lo`, `hi`.
pub open spec fn le16_signed(lo: u8, hi: u8) -> int {
    if hi * 256 + lo >= 32768 {
        hi * 256 + lo - 65536
    } else {
        hi * 256 + lo
    }
}

/// The output gain encoded in identification-header bytes.
pub open spec fn spec_output_gain_of(d: Seq<u8>) -> int {
    le16_signed(d[16], d[17])
}

/// `d` with the output gain bytes set to the encoding of `v`.
pub open spec fn spec_with_output_gain(d: Seq<u8>, v: i16) -> Seq<u8> {
    d.update(16, le16_lo(v)).update(17, le16_hi(v))
}

/// Encoding then decoding a signed 16-bit value is the identity.
pub proof fn lemma_le16_roundtrip(v: i16)
    ensures
        le16_signed(le16_lo(v), le16_hi(v)) == v,
{
    let u = u16_of_i16(v);
    vstd::arithmetic::div_mod::lemma_fundamental_div_mod(u, 256);
    assert(0 <= u < 65536);
    assert(0 <= u % 256 < 256);
    assert(0 <= u / 256 <= 255) by (nonlinear_arith)
        requires
            0 <= u < 65536,
    ;
}

/// Re-encoding the gain a header already carries leaves its bytes as they
/// are.
pub proof fn lemma_gain_reencode(d: Seq<u8>)
    requires
        d.len() >= 19,
    ensures
        spec_with_output_gain(d, spec_output_gain_of(d) as i16) == d,
{
    let lo = d[16];
    let hi = d[17];
    let v = le16_signed(lo, hi);
    assert(i16::MIN <= v <= i16::MAX);
    let u = u16_of_i16(v as i16);
    assert(u == hi * 256 + lo);
    vstd::arithmetic::div_mod::lemma_fundamental_div_mod_converse_div(u, 256, hi as int, lo as int);
    vstd::arithmetic::div_mod::lemma_fundamental_div_mod_converse_mod(u, 256, hi as int, lo as int);
    assert(le16_lo(v as i16) == lo);
    assert(le16_hi(v as i16) == hi);
    assert(spec_with_output_gain(d, v as i16) =~= d);
}

/// Setting a gain twice is the same as setting it once.
pub proof fn lemma_gain_set_twice(d: Seq<u8>, v: i16)
    requires
        d.len() >= 19,
    ensures
        spec_with_output_gain(spec_with_output_gain(d, v), v) == spec_with_output_gain(d, v),
{
    assert(spec_with_output_gain(spec_with_output_gain(d, v), v) =~= spec_with_output_gain(d, v));
}

/// The gain read back from freshly set gain bytes.
pub proof fn lemma_gain_of_set(d: Seq<u8>, v: i16)
    requires
        d.len() >= 19,
    ensures
        spec_output_gain_of(spec_with_output_gain(d, v)) == v,
        spec_with_output_gain(d, v).len() == d.len(),
        is_opus_header(d) ==> is_opus_header(spec_with_output_gain(d, v)),
{
    lemma_le16_roundtrip(v);
    let d2 = spec_with_output_gain(d, v);
    assert(d2[16] == le16_lo(v) && d2[17] == le16_hi(v));
    if is_opus_header(d) {
        assert(d2.subrange(0, 8) =~= d.subrange(0, 8));
    }
}

/// A parsed Opus identification header owning the packet bytes.
#[derive(Debug, PartialEq)]
pub struct OpusHeader {
    data: Vec<u8>,
}

impl View for OpusHeader {
    type V = Seq<u8>;

    closed spec fn view(&self) -> Seq<u8> {
        self.data@
    }
}

impl OpusHeader {
    /// The bytes always form an identification header.
    pub open spec fn wf(&self) -> bool {
        is_opus_header(self@)
    }

    /// The output gain encoded in the header, as a raw Q7.8 integer.
    pub open spec fn spec_output_gain(&self) -> int {
        le16_signed(self@[16], self@[17])
    }

    /// The channel count byte.
    pub open spec fn spec_channel_count(&self) -> u8 {
        self@[9]
    }

    /// Takes ownership of a packet's bytes when they form an Opus
    /// identification header; otherwise the stream is not Opus.
    pub fn try_parse(data: Vec<u8>) -> (r: Result<OpusHeader, Error>)
        ensures
            is_opus_header(data@) ==> (r matches Ok(h) && h@ == data@ && h.wf()),
            !is_opus_header(data@) ==> r == Err::<OpusHeader, Error>(Error::MissingOpusStream),
    {
        if data.len() < 19 {
            return Err(Error::MissingOpusStream);
        }
        let magic: [u8; 8] = [0x4f, 0x70, 0x75, 0x73, 0x48, 0x65, 0x61, 0x64];
        let mut i: usize = 0;
        while i < 8
            invariant
                i <= 8,
                data@.len() >= 19,
                magic@ == opus_magic(),
                forall|j: int| 0 <= j < i ==> data@[j] == opus_magic()[j],
            decreases 8 - i,
        {
            if data[i] != magic[i] {
                proof {
                    assert(data@.subrange(0, 8)[i as int] != opus_magic()[i as int]);
                }
                return Err(Error::MissingOpusStream);
            }
            i = i + 1;
        }
        proof {
            assert(data@.subrange(0, 8) =~= opus_magic());
        }
        Ok(OpusHeader { data })
    }

    /// Gives the (possibly modified) packet bytes back.
    pub fn into_data(self) -> (r: Vec<u8>)
        ensures
            r@ == self@,
    {
        self.data
    }

    /// The current output gain set in the header.
    pub fn get_output_gain(&self) -> (r: FixedPointGain)
        requires
            self.wf(),
        ensures
            r.value == self.spec_output_gain(),
    {
        let lo = self.data[16];
        let hi = self.data[17];
        let u: u16 = lo as u16 + (hi as u16) * 256;
        let value: i16 = if u < 32768 {
            u as i16
        } else {
            ((u - 32768) as i16) - 32767 - 1
        };
        FixedPointGain::from_fixed_point(value)
    }

    /// Sets the header's output gain.
    pub fn set_output_gain(&mut self, gain: FixedPointGain)
        requires
            old(self).wf(),
        ensures
            final(self)@ == spec_with_output_gain(old(self)@, gain.value),
            final(self).wf(),
            final(self).spec_output_gain() == gain.value,
    {
        let v = gain.value;
        let u: u16 = if v >= 0 {
            v as u16
        } else {
            ((v + 32767 + 1) as u16) + 32768
        };
        proof {
            assert(u == u16_of_i16(v));
            vstd::arithmetic::div_mod::lemma_fundamental_div_mod(u as int, 256);
        }
        let lo: u8 = (u % 256) as u8;
        let hi: u8 = (u / 256) as u8;
        self.data[16] = lo;
        self.data[17] = hi;
        proof {
            assert(self@ =~= spec_with_output_gain(old(self)@, v));
            lemma_le16_roundtrip(v);
            assert(self@.subrange(0, 8) =~= old(self)@.subrange(0, 8));
        }
    }

    /// Applies a delta to the output gain, failing with `GainOutOfBounds`
    /// when the sum leaves the Q7.8 range; the header is unchanged then.
    pub fn adjust_output_gain(&mut self, adjustment: FixedPointGain) -> (r: Result<(), Error>)
        requires
            old(self).wf(),
        ensures
            final(self).wf(),
            i16::MIN <= old(self).spec_output_gain() + adjustment.value <= i16::MAX ==> r == Ok::<
                (),
                Error,
            >(()) && final(self)@ == spec_with_output_gain(
                old(self)@,
                (old(self).spec_output_gain() + adjustment.value) as i16,
            ),
            !(i16::MIN <= old(self).spec_output_gain() + adjustment.value <= i16::MAX) ==> r
                == Err::<(), Error>(Error::GainOutOfBounds) && final(self)@ == old(self)@,
    {
        let gain = self.get_output_gain();
        match gain.checked_add(&adjustment) {
            Some(new_gain) => {
                self.set_output_gain(new_gain);
                Ok(())
            },
            None => Err(Error::GainOutOfBounds),
        }
    }

    /// The number of output channels declared by the header.
    pub fn num_output_channels(&self) -> (r: usize)
        requires
            self.wf(),
        ensures
            r == self.spec_channel_count(),
    {
        self.data[9] as usize
    }
}

} // verus!
