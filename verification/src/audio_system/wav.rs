//! Mono 16-bit PCM WAV files: the 44-byte RIFF/WAVE header and the
//! little-endian sample data, for already-quantized samples.

use vstd::prelude::*;

verus! {

/// The little-endian bytes of a `u32`.
pub open spec fn le32(x: u32) -> Seq<u8> {
    seq![(x % 256) as u8, ((x / 256) % 256) as u8, ((x / 65536) % 256) as u8, (x / 16777216) as u8]
}

/// The little-endian bytes of a `u16`.
pub open spec fn le16(x: u16) -> Seq<u8> {
    seq![(x % 256) as u8, (x / 256) as u8]
}

/// The bytes of an ASCII chunk tag.
pub open spec fn tag(a: char, b: char, c: char, d: char) -> Seq<u8> {
    seq![a as u8, b as u8, c as u8, d as u8]
}

/// The WAV header of `n` mono 16-bit samples at `rate` samples per second:
/// the RIFF chunk, the 16-byte PCM format chunk, and the data chunk header.
pub open spec fn wav_header(n: nat, rate: u32) -> Seq<u8> {
    let data_len = (2 * n) as u32;
    tag('R', 'I', 'F', 'F') + le32((36 + data_len) as u32) + tag('W', 'A', 'V', 'E')
        + tag('f', 'm', 't', ' ') + le32(16) + le16(1) + le16(1) + le32(rate)
        + le32((2 * rate) as u32) + le16(2) + le16(16)
        + tag('d', 'a', 't', 'a') + le32(data_len)
}

/// The little-endian bytes of every sample, in order.
pub open spec fn pcm16_bytes(samples: Seq<i16>) -> Seq<u8>
    decreases samples.len(),
{
    if samples.len() == 0 {
        Seq::empty()
    } else {
        pcm16_bytes(samples.drop_last()) + le16(samples.last() as u16)
    }
}

/// A WAV file of `n` samples fits the 32-bit sizes of its header.
pub open spec fn wav_fits(n: nat, rate: u32) -> bool {
    36 + 2 * n <= u32::MAX && 2 * rate <= u32::MAX
}

fn push_le32(v: &mut Vec<u8>, x: u32)
    ensures
        final(v)@ == old(v)@ + le32(x),
{
    v.push((x % 256) as u8);
    v.push(((x / 256) % 256) as u8);
    v.push(((x / 65536) % 256) as u8);
    v.push((x / 16777216) as u8);
    assert(final(v)@ =~= old(v)@ + le32(x));
}

fn push_le16(v: &mut Vec<u8>, x: u16)
    ensures
        final(v)@ == old(v)@ + le16(x),
{
    v.push((x % 256) as u8);
    v.push((x / 256) as u8);
    assert(final(v)@ =~= old(v)@ + le16(x));
}

fn push_tag(v: &mut Vec<u8>, a: u8, b: u8, c: u8, d: u8)
    ensures
        final(v)@ == old(v)@ + seq![a, b, c, d],
{
    v.push(a);
    v.push(b);
    v.push(c);
    v.push(d);
    assert(final(v)@ =~= old(v)@ + seq![a, b, c, d]);
}

/// Encodes 16-bit samples (mono) as a PCM WAV file: the 44-byte header, then
/// each sample little-endian.
pub fn encode_pcm16_wav(samples: &[i16], sample_rate: u32) -> (r: Vec<u8>)
    requires
        wav_fits(samples@.len(), sample_rate),
    ensures
        r@ == wav_header(samples@.len(), sample_rate) + pcm16_bytes(samples@),
        r@.len() == 44 + 2 * samples@.len(),
{
    let n = samples.len();
    let data_len: u32 = (n as u32) * 2;
    let mut v: Vec<u8> = Vec::new();
    push_tag(&mut v, 82, 73, 70, 70);
    push_le32(&mut v, 36 + data_len);
    push_tag(&mut v, 87, 65, 86, 69);
    push_tag(&mut v, 102, 109, 116, 32);
    push_le32(&mut v, 16);
    push_le16(&mut v, 1);
    push_le16(&mut v, 1);
    push_le32(&mut v, sample_rate);
    push_le32(&mut v, sample_rate * 2);
    push_le16(&mut v, 2);
    push_le16(&mut v, 16);
    push_tag(&mut v, 100, 97, 116, 97);
    push_le32(&mut v, data_len);
    let ghost header = v@;
    assert(header =~= wav_header(n as nat, sample_rate)) by {
        assert(tag('R', 'I', 'F', 'F') == seq![82u8, 73, 70, 70]);
        assert(tag('W', 'A', 'V', 'E') == seq![87u8, 65, 86, 69]);
        assert(tag('f', 'm', 't', ' ') == seq![102u8, 109, 116, 32]);
        assert(tag('d', 'a', 't', 'a') == seq![100u8, 97, 116, 97]);
    }
    let mut i: usize = 0;
    while i < n
        invariant
            n == samples@.len(),
            i <= n,
            header == wav_header(n as nat, sample_rate),
            header.len() == 44,
            v@ == header + pcm16_bytes(samples@.take(i as int)),
        decreases n - i,
    {
        let q = samples[i];
        push_le16(&mut v, q as u16);
        assert(samples@.take(i + 1).drop_last() =~= samples@.take(i as int));
        assert(v@ =~= header + pcm16_bytes(samples@.take(i + 1)));
        i = i + 1;
    }
    assert(samples@.take(n as int) =~= samples@);
    proof {
        lemma_pcm16_len(samples@);
    }
    v
}

proof fn lemma_pcm16_len(samples: Seq<i16>)
    ensures
        pcm16_bytes(samples).len() == 2 * samples.len(),
    decreases samples.len(),
{
    if samples.len() > 0 {
        lemma_pcm16_len(samples.drop_last());
    }
}

} // verus!
