//! The bytes of a canonical 44-byte-header PCM WAV file.
use vstd::prelude::*;

verus! {

#[derive(Debug)]
pub enum WavError {
    /// The PCM buffer does not hold a whole number of 16-bit samples.
    UnalignedPcm,
}

/// `v` as four little-endian bytes.
pub open spec fn le_u32(v: nat) -> Seq<u8> {
    seq![(v % 256) as u8, ((v / 256) % 256) as u8, ((v / 65536) % 256) as u8, ((v / 16777216) % 256) as u8]
}

/// `v` as two little-endian bytes.
pub open spec fn le_u16(v: nat) -> Seq<u8> {
    seq![(v % 256) as u8, ((v / 256) % 256) as u8]
}

pub open spec fn riff_tag() -> Seq<u8> {
    seq![0x52u8, 0x49, 0x46, 0x46]
}

pub open spec fn wave_tag() -> Seq<u8> {
    seq![0x57u8, 0x41, 0x56, 0x45]
}

pub open spec fn fmt_tag() -> Seq<u8> {
    seq![0x66u8, 0x6d, 0x74, 0x20]
}

pub open spec fn data_tag() -> Seq<u8> {
    seq![0x64u8, 0x61, 0x74, 0x61]
}

/// The 44-byte header of a 16-bit PCM WAV file holding `data_len` bytes.
pub open spec fn wav_header(data_len: nat, sample_rate: nat, channels: nat) -> Seq<u8> {
    riff_tag() + le_u32(36 + data_len) + wave_tag() + fmt_tag() + le_u32(16) + le_u16(1)
        + le_u16(channels) + le_u32(sample_rate) + le_u32(sample_rate * channels * 2) + le_u16(
        channels * 2,
    ) + le_u16(16) + data_tag() + le_u32(data_len)
}

/// The inputs whose header fields fit their widths.
pub open spec fn wav_fits(pcm_len: nat, sample_rate: u32, channels: u16) -> bool {
    &&& pcm_len + 36 <= u32::MAX
    &&& sample_rate * channels * 2 <= u32::MAX
    &&& channels * 2 <= u16::MAX
}

fn push_le_u32(out: &mut Vec<u8>, v: u32)
    ensures
        final(out)@ == old(out)@ + le_u32(v as nat),
{
    out.push((v % 256) as u8);
    out.push(((v / 256) % 256) as u8);
    out.push(((v / 65536) % 256) as u8);
    out.push(((v / 16777216) % 256) as u8);
    assert(final(out)@ =~= old(out)@ + le_u32(v as nat)) by {
        assert(out@ =~= old(out)@ + le_u32(v as nat));
    }
}

fn push_le_u16(out: &mut Vec<u8>, v: u16)
    ensures
        final(out)@ == old(out)@ + le_u16(v as nat),
{
    out.push((v % 256) as u8);
    out.push(((v / 256) % 256) as u8);
    assert(out@ =~= old(out)@ + le_u16(v as nat));
}

fn push_tag(out: &mut Vec<u8>, a: u8, b: u8, c: u8, d: u8)
    ensures
        final(out)@ == old(out)@ + seq![a, b, c, d],
{
    out.push(a);
    out.push(b);
    out.push(c);
    out.push(d);
    assert(out@ =~= old(out)@ + seq![a, b, c, d]);
}

/// The whole WAV file for 16-bit little-endian PCM: the header, then the
/// samples as they are.  A buffer with an odd number of bytes is refused.
pub fn encode_wav(pcm_s16le: &[u8], sample_rate: u32, channels: u16) -> (r: Result<Vec<u8>, WavError>)
    requires
        pcm_s16le@.len() % 2 == 0 ==> wav_fits(pcm_s16le@.len(), sample_rate, channels),
    ensures
        r is Err <==> pcm_s16le@.len() % 2 != 0,
        r matches Ok(bytes) ==> bytes@ == wav_header(
            pcm_s16le@.len(),
            sample_rate as nat,
            channels as nat,
        ) + pcm_s16le@,
{
    if pcm_s16le.len() % 2 != 0 {
        return Err(WavError::UnalignedPcm);
    }
    let data_len = pcm_s16le.len() as u32;
    assert(sample_rate as u64 * channels as u64 <= u32::MAX) by (nonlinear_arith)
        requires
            sample_rate * channels * 2 <= u32::MAX,
    ;
    let byte_rate = sample_rate * channels as u32 * 2;
    let block_align = channels * 2;
    let riff_size = 36 + data_len;
    let mut out: Vec<u8> = Vec::new();
    push_tag(&mut out, 0x52, 0x49, 0x46, 0x46);
    push_le_u32(&mut out, riff_size);
    push_tag(&mut out, 0x57, 0x41, 0x56, 0x45);
    push_tag(&mut out, 0x66, 0x6d, 0x74, 0x20);
    push_le_u32(&mut out, 16);
    push_le_u16(&mut out, 1);
    push_le_u16(&mut out, channels);
    push_le_u32(&mut out, sample_rate);
    push_le_u32(&mut out, byte_rate);
    push_le_u16(&mut out, block_align);
    push_le_u16(&mut out, 16);
    push_tag(&mut out, 0x64, 0x61, 0x74, 0x61);
    push_le_u32(&mut out, data_len);
    crate::vad::extend_bytes(&mut out, pcm_s16le);
    assert(out@ =~= wav_header(pcm_s16le@.len(), sample_rate as nat, channels as nat)
        + pcm_s16le@);
    Ok(out)
}

/// The header takes 44 bytes: the file is 44 bytes longer than its samples.
pub proof fn lemma_wav_header_len(data_len: nat, sample_rate: nat, channels: nat)
    ensures
        wav_header(data_len, sample_rate, channels).len() == 44,
{
}

} // verus!
