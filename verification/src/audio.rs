//! Audio as one channel of samples.

use crate::model::ProcessOutput;
use crate::text;
use crate::text::{join3, join4, same_text, to_lower, trim};
use vstd::prelude::*;

verus! {

/// Audio with one channel, in steps of the 32768th part of the full level.
#[derive(Debug, Clone)]
pub struct OggDecode {
    pub sample_rate_hz: u32,
    pub mono: Vec<i16>,
}

pub open spec fn louder(a: i16, b: i16) -> i16 {
    if a < b {
        b
    } else {
        a
    }
}

// ---------------------------------------------------------------------------
// Channels that stand apart
// ---------------------------------------------------------------------------

pub open spec fn channel_views(packet: Seq<Vec<i16>>) -> Seq<Seq<i16>> {
    packet.map_values(|c: Vec<i16>| c@)
}

/// The first `frames` frames, each as one sample of every channel.
pub open spec fn interleaved(packet: Seq<Seq<i16>>, frames: nat) -> Seq<i16>
    decreases frames,
{
    if frames == 0 {
        Seq::empty()
    } else {
        interleaved(packet, (frames - 1) as nat) + Seq::new(
            packet.len(),
            |c: int| packet[c][frames - 1],
        )
    }
}

/// What a packet gives: of stereo the greater sample of each frame, of one
/// channel its samples, and of any other number the samples of each frame, one
/// after another.
pub open spec fn mono_like(packet: Seq<Seq<i16>>, channels: usize) -> Seq<i16> {
    if channels == 2 && packet.len() >= 2 {
        let frames = if packet[0].len() < packet[1].len() {
            packet[0].len()
        } else {
            packet[1].len()
        };
        Seq::new(frames, |i: int| louder(packet[0][i], packet[1][i]))
    } else if packet.len() == 1 {
        packet[0]
    } else if packet.len() == 0 {
        Seq::empty()
    } else {
        interleaved(packet, packet[0].len())
    }
}

/// Whether every channel has a sample for each frame of the first one.
pub open spec fn channels_reach(packet: Seq<Seq<i16>>) -> bool {
    forall|c: int| 0 <= c < packet.len() ==> (#[trigger] packet[c]).len() >= packet[0].len()
}

fn append_stereo_max(left: &Vec<i16>, right: &Vec<i16>, out: &mut Vec<i16>)
    ensures
        final(out)@ == old(out)@ + Seq::new(
            if left.len() < right.len() {
                left@.len()
            } else {
                right@.len()
            },
            |i: int| louder(left@[i], right@[i]),
        ),
{
    let ghost start = out@;
    let len: usize = if left.len() < right.len() {
        left.len()
    } else {
        right.len()
    };
    let mut i: usize = 0;
    assert(out@ =~= start + Seq::new(0, |k: int| louder(left@[k], right@[k])));
    while i < len
        invariant
            i <= len,
            len <= left.len(),
            len <= right.len(),
            out@ == start + Seq::new(i as nat, |k: int| louder(left@[k], right@[k])),
        decreases len - i,
    {
        let (a, b): (i16, i16) = (left[i], right[i]);
        out.push(
            if a < b {
                b
            } else {
                a
            },
        );
        assert(out@ =~= start + Seq::new((i + 1) as nat, |k: int| louder(left@[k], right@[k])));
        i += 1;
    }
}

fn append_passthrough(packet: &Vec<i16>, out: &mut Vec<i16>)
    ensures
        final(out)@ == old(out)@ + packet@,
{
    let ghost start = out@;
    let mut i: usize = 0;
    assert(out@ =~= start + packet@.take(0));
    while i < packet.len()
        invariant
            i <= packet.len(),
            out@ == start + packet@.take(i as int),
        decreases packet.len() - i,
    {
        out.push(packet[i]);
        assert(out@ =~= start + packet@.take(i + 1));
        i += 1;
    }
    assert(packet@.take(i as int) =~= packet@);
}

fn append_interleaved_passthrough(packet: &Vec<Vec<i16>>, out: &mut Vec<i16>)
    requires
        channels_reach(channel_views(packet@)),
    ensures
        final(out)@ == old(out)@ + (if packet.len() == 0 {
            Seq::empty()
        } else {
            interleaved(channel_views(packet@), packet@[0]@.len())
        }),
{
    let ghost start = out@;
    if packet.len() == 0 {
        assert(out@ =~= start + Seq::<i16>::empty());
        return;
    }
    let ghost planes = channel_views(packet@);
    let frames: usize = packet[0].len();
    let mut i: usize = 0;
    assert(out@ =~= start + interleaved(planes, 0));
    while i < frames
        invariant
            i <= frames,
            planes == channel_views(packet@),
            channels_reach(planes),
            packet.len() > 0,
            frames == packet@[0]@.len(),
            out@ == start + interleaved(planes, i as nat),
        decreases frames - i,
    {
        let ghost before = out@;
        let mut c: usize = 0;
        assert(out@ =~= before + Seq::new(0, |k: int| planes[k][i as int]));
        while c < packet.len()
            invariant
                c <= packet.len(),
                i < frames,
                planes == channel_views(packet@),
                channels_reach(planes),
                packet.len() > 0,
                frames == packet@[0]@.len(),
                out@ == before + Seq::new(c as nat, |k: int| planes[k][i as int]),
            decreases packet.len() - c,
        {
            assert(planes[c as int].len() >= planes[0].len());
            out.push(packet[c][i]);
            assert(out@ =~= before + Seq::new((c + 1) as nat, |k: int| planes[k][i as int]));
            c += 1;
        }
        assert(out@ =~= start + interleaved(planes, (i + 1) as nat)) by {
            let frame = Seq::new(packet@.len(), |k: int| planes[k][i as int]);
            assert(interleaved(planes, (i + 1) as nat) =~= interleaved(planes, i as nat) + frame);
        }
        i += 1;
    }
}

/// Appends what a packet gives.
pub fn append_python_mono_like(packet: &Vec<Vec<i16>>, channels: usize, out: &mut Vec<i16>)
    requires
        channels_reach(channel_views(packet@)) || (channels == 2 && packet.len() >= 2),
    ensures
        final(out)@ == old(out)@ + mono_like(channel_views(packet@), channels),
{
    if channels == 2 && packet.len() >= 2 {
        append_stereo_max(&packet[0], &packet[1], out);
    } else if packet.len() == 1 {
        append_passthrough(&packet[0], out);
    } else {
        append_interleaved_passthrough(packet, out);
    }
}

/// A stereo frame gives one of its two samples, and none of the two is greater.
pub proof fn stereo_gives_the_greater_sample(packet: Seq<Seq<i16>>, i: int)
    requires
        packet.len() >= 2,
        0 <= i < mono_like(packet, 2).len(),
    ensures
        ({
            let given = mono_like(packet, 2)[i];
            &&& i < packet[0].len() && i < packet[1].len()
            &&& packet[0][i] <= given && packet[1][i] <= given
            &&& given == packet[0][i] || given == packet[1][i]
        }),
        mono_like(packet, 2).len() <= packet[0].len(),
        mono_like(packet, 2).len() <= packet[1].len(),
        mono_like(packet, 2).len() == packet[0].len() || mono_like(packet, 2).len()
            == packet[1].len(),
{
}

/// It does not matter which of two channels is which, and a channel with itself gives
/// itself.
pub proof fn stereo_knows_no_sides(left: Seq<i16>, right: Seq<i16>)
    ensures
        mono_like(seq![left, right], 2) == mono_like(seq![right, left], 2),
        mono_like(seq![left, left], 2) == left,
        mono_like(seq![left], 1) == left,
        mono_like(seq![left], 2) == left,
{
    assert(mono_like(seq![left, right], 2) =~= mono_like(seq![right, left], 2));
    assert(mono_like(seq![left, left], 2) =~= left);
}

/// Where there are neither one nor two channels, every sample is given once: that of
/// channel `c` in frame `i` behind those of the frames and channels before it.
pub proof fn other_channels_are_kept_whole(
    packet: Seq<Seq<i16>>,
    channels: usize,
    i: int,
    c: int,
)
    requires
        channels_reach(packet),
        packet.len() > 0,
        !(channels == 2 && packet.len() >= 2),
        0 <= i < packet[0].len(),
        0 <= c < packet.len(),
    ensures
        mono_like(packet, channels).len() == packet[0].len() * packet.len(),
        0 <= i * packet.len() + c < mono_like(packet, channels).len(),
        mono_like(packet, channels)[i * packet.len() + c] == packet[c][i],
{
    let n = packet.len() as int;
    mono_like_lengths(packet, channels);
    assert(0 <= i * n + c < packet[0].len() * n) by (nonlinear_arith)
        requires
            0 <= i < packet[0].len(),
            0 <= c < n,
    ;
    if packet.len() == 1 {
        assert(i * n + c == i) by (nonlinear_arith)
            requires
                n == 1,
                c == 0,
        ;
    } else {
        lemma_interleaved_at(packet, packet[0].len(), i, c);
    }
}

/// Two bytes are the low and the high half of the sample that they stand for: adding them
/// up, the high one by 256, gives the sample, or 65536 more where it is negative.
pub proof fn samples_are_little_endian(bytes: Seq<u8>, k: int)
    requires
        0 <= k,
        2 * k + 1 < bytes.len(),
    ensures
        ({
            let sample = sample_in(bytes, k);
            let sum = bytes[2 * k] + 256 * bytes[2 * k + 1];
            &&& sum == sample || sum == sample + 65536
            &&& sum == sample <==> sample >= 0
            &&& sample < 0 <==> bytes[2 * k + 1] >= 128
        }),
{
}

/// What interleaved bytes give: of two channels the greater sample of each frame, of any
/// other number every sample in its place, and nothing of a frame that is cut off.
pub proof fn interleaved_bytes_are_frames(bytes: Seq<u8>, channels: usize, i: int)
    requires
        channels > 0,
        0 <= i < mono_in(bytes, channels).len(),
    ensures
        channels == 2 ==> {
            let (left, right) = (sample_in(bytes, 2 * i), sample_in(bytes, 2 * i + 1));
            let given = mono_in(bytes, channels)[i];
            &&& left <= given && right <= given
            &&& given == left || given == right
            &&& 4 * mono_in(bytes, channels).len() <= bytes.len() < 4 * mono_in(
                bytes,
                channels,
            ).len() + 4
        },
        channels != 2 ==> {
            &&& mono_in(bytes, channels)[i] == sample_in(bytes, i)
            &&& mono_in(bytes, channels).len() % (channels as nat) == 0
            &&& 2 * mono_in(bytes, channels).len() <= bytes.len() < 2 * mono_in(
                bytes,
                channels,
            ).len() + 2 * channels
        },
{
    if channels != 2 {
        let n = channels as int;
        let frames = bytes.len() as int / (2 * n);
        vstd::arithmetic::div_mod::lemma_fundamental_div_mod(bytes.len() as int, 2 * n);
        vstd::arithmetic::div_mod::lemma_mod_bound(bytes.len() as int, 2 * n);
        assert(2 * (frames * n) == (2 * n) * frames) by (nonlinear_arith);
        vstd::arithmetic::div_mod::lemma_mod_multiples_basic(frames, n);
    }
}

/// A frame of `n` channels gives `n` samples, but a stereo frame gives one.
pub proof fn mono_like_lengths(packet: Seq<Seq<i16>>, channels: usize)
    requires
        channels_reach(packet),
        packet.len() > 0,
    ensures
        channels == 2 && packet.len() >= 2 ==> mono_like(packet, channels).len()
            == packet[0].len(),
        !(channels == 2 && packet.len() >= 2) ==> mono_like(packet, channels).len()
            == packet[0].len() * packet.len(),
{
    if channels == 2 && packet.len() >= 2 {
        assert(packet[1].len() >= packet[0].len());
    } else if packet.len() > 1 {
        lemma_interleaved_len(packet, packet[0].len());
    }
}

proof fn lemma_interleaved_len(packet: Seq<Seq<i16>>, frames: nat)
    ensures
        interleaved(packet, frames).len() == frames * packet.len(),
    decreases frames,
{
    if frames > 0 {
        lemma_interleaved_len(packet, (frames - 1) as nat);
        assert(frames * packet.len() == (frames - 1) * packet.len() + packet.len())
            by (nonlinear_arith);
    } else {
        assert(0 * packet.len() == 0);
    }
}

/// How many channels of a buffer are looked at.
pub fn planes_used(buffer_channels: usize, source_channels: usize) -> (n: usize)
    ensures
        ({
            let most = if source_channels == 0 {
                1
            } else {
                source_channels as int
            };
            n == (if buffer_channels < most {
                buffer_channels as int
            } else {
                most
            })
        }),
        n <= buffer_channels,
{
    let most: usize = if source_channels == 0 {
        1
    } else {
        source_channels
    };
    if buffer_channels < most {
        buffer_channels
    } else {
        most
    }
}

// ---------------------------------------------------------------------------
// Samples in bytes
// ---------------------------------------------------------------------------

/// The sample at place `k`: two bytes, the low one first.
pub open spec fn sample_in(bytes: Seq<u8>, k: int) -> i16 {
    let v = bytes[2 * k] + 256 * bytes[2 * k + 1];
    if v >= 32768 {
        (v - 65536) as i16
    } else {
        v as i16
    }
}

fn sample_at(bytes: &Vec<u8>, k: usize) -> (out: i16)
    requires
        2 * k + 1 < bytes.len(),
    ensures
        out == sample_in(bytes@, k as int),
{
    let v: i32 = bytes[2 * k] as i32 + 256 * bytes[2 * k + 1] as i32;
    if v >= 32768 {
        (v - 65536) as i16
    } else {
        v as i16
    }
}

/// What interleaved samples give: as with channels that stand apart. A frame
/// that is cut off at the end gives nothing.
pub open spec fn mono_in(bytes: Seq<u8>, channels: usize) -> Seq<i16> {
    if channels == 0 {
        Seq::empty()
    } else if channels == 2 {
        Seq::new(
            bytes.len() / 4,
            |i: int| louder(sample_in(bytes, 2 * i), sample_in(bytes, 2 * i + 1)),
        )
    } else {
        Seq::new(
            (bytes.len() / (2 * channels as nat)) * channels as nat,
            |k: int| sample_in(bytes, k),
        )
    }
}

pub fn mono_from_interleaved_pcm_i16(bytes: &Vec<u8>, channels: usize) -> (out: Vec<i16>)
    requires
        channels * 2 <= usize::MAX,
    ensures
        out@ == mono_in(bytes@, channels),
{
    let mut out: Vec<i16> = Vec::new();
    if channels == 0 {
        assert(out@ =~= mono_in(bytes@, channels));
        return out;
    }
    if channels == 2 {
        let frames: usize = bytes.len() / 4;
        let mut i: usize = 0;
        while i < frames
            invariant
                i <= frames,
                frames == bytes.len() / 4,
                out.len() == i,
                forall|k: int|
                    0 <= k < i ==> #[trigger] out@[k] == louder(
                        sample_in(bytes@, 2 * k),
                        sample_in(bytes@, 2 * k + 1),
                    ),
            decreases frames - i,
        {
            let left: i16 = sample_at(bytes, 2 * i);
            let right: i16 = sample_at(bytes, 2 * i + 1);
            out.push(
                if left < right {
                    right
                } else {
                    left
                },
            );
            i += 1;
        }
        assert(out@ =~= mono_in(bytes@, channels));
        return out;
    }
    let frames: usize = bytes.len() / (channels * 2);
    proof {
        vstd::arithmetic::div_mod::lemma_fundamental_div_mod(
            bytes.len() as int,
            2 * channels as int,
        );
        assert(0 <= 2 * (frames * channels) <= bytes.len()) by (nonlinear_arith)
            requires
                bytes.len() == 2 * channels * frames + bytes.len() as int % (2 * channels as int),
                0 <= bytes.len() as int % (2 * channels as int),
                frames >= 0,
                channels >= 0,
        ;
    }
    let samples: usize = frames * channels;
    let mut k: usize = 0;
    while k < samples
        invariant
            k <= samples,
            2 * samples <= bytes.len(),
            out.len() == k,
            forall|j: int| 0 <= j < k ==> #[trigger] out@[j] == sample_in(bytes@, j),
        decreases samples - k,
    {
        out.push(sample_at(bytes, k));
        k += 1;
    }
    assert(out@ =~= mono_in(bytes@, channels));
    out
}

// ---------------------------------------------------------------------------
// Decoding
// ---------------------------------------------------------------------------

/// Whether the bytes are the samples of some channels, each with `frames` of them, one
/// frame after another.
pub open spec fn interleaves(bytes: Seq<u8>, packet: Seq<Seq<i16>>, frames: int) -> bool {
    &&& 0 <= frames
    &&& bytes.len() == 2 * (frames * packet.len())
    &&& forall|c: int| 0 <= c < packet.len() ==> (#[trigger] packet[c]).len() == frames
    &&& forall|i: int, c: int|
        0 <= i < frames && 0 <= c < packet.len() ==> sample_in(bytes, i * packet.len() + c)
            == #[trigger] packet[c][i]
}

/// Both ways of decoding give the same samples: from channels that stand apart, and from
/// interleaved bytes.
pub proof fn both_decodings_agree(
    bytes: Seq<u8>,
    packet: Seq<Seq<i16>>,
    frames: int,
    channels: usize,
)
    requires
        packet.len() == channels,
        channels > 0,
        interleaves(bytes, packet, frames),
    ensures
        mono_in(bytes, channels) == mono_like(packet, channels),
{
    let n = channels as int;
    assert(bytes.len() == (2 * n) * frames) by (nonlinear_arith)
        requires
            bytes.len() == 2 * (frames * n),
    ;
    vstd::arithmetic::div_mod::lemma_fundamental_div_mod_converse(
        bytes.len() as int,
        2 * n,
        frames,
        0,
    );
    if channels == 2 {
        assert forall|i: int| 0 <= i < frames implies sample_in(bytes, 2 * i) == packet[0][i]
            && sample_in(bytes, 2 * i + 1) == packet[1][i] by {
            assert(sample_in(bytes, i * packet.len() + 0) == packet[0][i]);
            assert(sample_in(bytes, i * packet.len() + 1) == packet[1][i]);
            assert(i * 2 == 2 * i);
        }
        assert(mono_in(bytes, channels) =~= mono_like(packet, channels));
    } else if channels == 1 {
        assert forall|i: int| 0 <= i < frames implies sample_in(bytes, i) == packet[0][i] by {
            assert(sample_in(bytes, i * packet.len() + 0) == packet[0][i]);
            assert(i * 1 == i);
        }
        assert(mono_in(bytes, channels) =~= mono_like(packet, channels));
    } else {
        lemma_interleaved_len(packet, frames as nat);
        assert forall|k: int| 0 <= k < frames * n implies sample_in(bytes, k) == interleaved(
            packet,
            frames as nat,
        )[k] by {
            vstd::arithmetic::div_mod::lemma_fundamental_div_mod(k, n);
            vstd::arithmetic::div_mod::lemma_mod_bound(k, n);
            let i = k / n;
            let c = k % n;
            assert(0 <= i < frames && i * n + c == k) by (nonlinear_arith)
                requires
                    0 <= k < frames * n,
                    k == n * i + c,
                    0 <= c < n,
            ;
            lemma_interleaved_at(packet, frames as nat, i, c);
            assert(sample_in(bytes, i * packet.len() + c) == packet[c][i]);
        }
        assert(mono_in(bytes, channels) =~= mono_like(packet, channels));
    }
}

/// Where a sample stands among those of all channels.
proof fn lemma_interleaved_at(packet: Seq<Seq<i16>>, frames: nat, i: int, c: int)
    requires
        0 <= i < frames,
        0 <= c < packet.len(),
    ensures
        interleaved(packet, frames)[i * packet.len() + c] == packet[c][i],
    decreases frames,
{
    let n = packet.len() as int;
    lemma_interleaved_len(packet, (frames - 1) as nat);
    if i < frames - 1 {
        lemma_interleaved_at(packet, (frames - 1) as nat, i, c);
        assert(0 <= i * n + c < (frames - 1) * n) by (nonlinear_arith)
            requires
                0 <= i < frames - 1,
                0 <= c < n,
        ;
    }
}

/// A track of a file.
#[derive(Debug, Clone, Copy, PartialEq, Eq, Structural)]
pub struct TrackInfo {
    pub has_codec: bool,
    pub sample_rate: Option<u32>,
    pub channels: Option<usize>,
}

/// Whether `i` is the first track with a codec.
pub open spec fn first_usable(tracks: Seq<TrackInfo>, i: int) -> bool {
    &&& 0 <= i < tracks.len()
    &&& tracks[i].has_codec
    &&& forall|j: int| 0 <= j < i ==> !(#[trigger] tracks[j]).has_codec
}

/// The first track with a codec, its sample rate and its channels.
pub fn usable_track(path: &str, tracks: &Vec<TrackInfo>) -> (out: Result<
    (usize, u32, usize),
    String,
>)
    ensures
        match out {
            Ok(found) => {
                &&& first_usable(tracks@, found.0 as int)
                &&& tracks@[found.0 as int].sample_rate == Some(found.1)
                &&& tracks@[found.0 as int].channels == Some(found.2)
            },
            Err(e) => {
                ||| (forall|j: int| 0 <= j < tracks.len() ==> !(#[trigger] tracks@[j]).has_codec)
                    && e@ == "ogg "@ + path@ + " has no usable audio track"@
                ||| exists|i: int| #[trigger]
                    first_usable(tracks@, i) && tracks@[i].sample_rate is None && e@ == "ogg "@
                        + path@ + " missing sample rate"@
                ||| exists|i: int| #[trigger]
                    first_usable(tracks@, i) && tracks@[i].sample_rate is Some
                        && tracks@[i].channels is None && e@ == "ogg "@ + path@
                        + " missing channel layout"@
            },
        },
{
    let mut i: usize = 0;
    while i < tracks.len()
        invariant
            i <= tracks.len(),
            forall|j: int| 0 <= j < i ==> !(#[trigger] tracks@[j]).has_codec,
        decreases tracks.len() - i,
    {
        let track: TrackInfo = tracks[i];
        if track.has_codec {
            assert(first_usable(tracks@, i as int));
            let rate: u32 = match track.sample_rate {
                Some(rate) => rate,
                None => {
                    return Err(join3("ogg ", path, " missing sample rate"));
                },
            };
            return match track.channels {
                Some(channels) => Ok((i, rate, channels)),
                None => Err(join3("ogg ", path, " missing channel layout")),
            };
        }
        i += 1;
    }
    Err(join3("ogg ", path, " has no usable audio track"))
}

/// What came of asking for the next packet and decoding it.
pub enum PacketEvent {
    /// There are no more packets.
    Ended,
    /// The stream starts anew.
    Reset,
    /// The packet could not be read.
    Unreadable(String),
    /// The packet belongs to another track.
    Foreign,
    /// The packet is damaged.
    Damaged,
    /// The packet could not be decoded.
    Undecodable(String),
    /// The samples of the packet, each channel by itself.
    Samples(Vec<Vec<i16>>),
}

/// What is to be done behind a packet.
pub enum DecodeStep {
    /// Ask for the next packet.
    More,
    /// Stop: all was read.
    Finished,
    /// Give up.
    Failed(String),
}

impl PacketEvent {
    /// What the packet adds.
    pub open spec fn samples(self, channels: usize) -> Seq<i16> {
        match self {
            PacketEvent::Samples(packet) => mono_like(channel_views(packet@), channels),
            _ => Seq::empty(),
        }
    }

    /// What is to be done behind the packet.
    pub open spec fn leads_to(self, path: Seq<char>, step: DecodeStep) -> bool {
        match self {
            PacketEvent::Ended => step is Finished,
            PacketEvent::Reset => step is Finished,
            PacketEvent::Unreadable(e) => step matches DecodeStep::Failed(why) && why@
                == "ogg read "@ + path + " failed: "@ + e@,
            PacketEvent::Undecodable(e) => step matches DecodeStep::Failed(why) && why@
                == "ogg decode "@ + path + " failed: "@ + e@,
            PacketEvent::Foreign => step is More,
            PacketEvent::Damaged => step is More,
            PacketEvent::Samples(_) => step is More,
        }
    }
}

/// Takes one packet.
pub fn take_packet(path: &str, channels: usize, event: PacketEvent, mono: &mut Vec<i16>) -> (step:
    DecodeStep)
    requires
        event matches PacketEvent::Samples(packet) ==> channels_reach(channel_views(packet@)),
    ensures
        final(mono)@ == old(mono)@ + event.samples(channels),
        event.leads_to(path@, step),
{
    let ghost start = mono@;
    assert(start + Seq::<i16>::empty() =~= start);
    match event {
        PacketEvent::Ended => DecodeStep::Finished,
        PacketEvent::Reset => DecodeStep::Finished,
        PacketEvent::Unreadable(e) => DecodeStep::Failed(join4("ogg read ", path, " failed: ", &e)),
        PacketEvent::Undecodable(e) => DecodeStep::Failed(
            join4("ogg decode ", path, " failed: ", &e),
        ),
        PacketEvent::Foreign => DecodeStep::More,
        PacketEvent::Damaged => DecodeStep::More,
        PacketEvent::Samples(packet) => {
            append_python_mono_like(&packet, channels, mono);
            DecodeStep::More
        },
    }
}

/// The audio without the padding at its end, where there is as much of it.
pub fn trim_padding(sample_rate_hz: u32, mono: Vec<i16>, padding: usize) -> (out: OggDecode)
    ensures
        out.sample_rate_hz == sample_rate_hz,
        out.mono@ == (if padding <= mono.len() {
            mono@.take(mono.len() - padding)
        } else {
            mono@
        }),
{
    let mut mono: Vec<i16> = mono;
    assert(mono@.take(mono.len() as int) =~= mono@);
    if padding > 0 && padding <= mono.len() {
        let keep: usize = mono.len() - padding;
        mono.truncate(keep);
    }
    OggDecode { sample_rate_hz, mono }
}

/// The decoder that is asked for, if one is: the text without the white space
/// round it, in small letters.
pub fn decoder_pref(raw: Option<&str>) -> (out: Option<String>)
    ensures
        match raw {
            Some(value) => if text::trimmed(value@).len() == 0 {
                out is None
            } else {
                out is Some && out->Some_0@ == text::lower(text::trimmed(value@))
            },
            None => out is None,
        },
{
    match raw {
        Some(value) => {
            let name: String = to_lower(&trim(value));
            if name.as_str().is_empty() {
                None
            } else {
                Some(name)
            }
        },
        None => None,
    }
}

/// What the external decoder gave.
pub fn ffmpeg_outcome(
    path: &str,
    launched: Result<ProcessOutput, String>,
    sample_rate_hz: u32,
    channels: usize,
) -> (out: Result<OggDecode, String>)
    requires
        channels * 2 <= usize::MAX,
    ensures
        match launched {
            Err(e) => out is Err && out->Err_0@ == "ffmpeg decode "@ + path@ + " failed: "@ + e@,
            Ok(output) => if output.success {
                out is Ok && out->Ok_0.sample_rate_hz == sample_rate_hz && out->Ok_0.mono@
                    == mono_in(output.stdout@, channels)
            } else {
                out is Err && out->Err_0@ == "ffmpeg decode "@ + path@ + " failed: "@
                    + text::trimmed(output.stderr@)
            },
        },
{
    match launched {
        Err(e) => Err(join4("ffmpeg decode ", path, " failed: ", &e)),
        Ok(output) => {
            if output.success {
                Ok(
                    OggDecode {
                        sample_rate_hz,
                        mono: mono_from_interleaved_pcm_i16(&output.stdout, channels),
                    },
                )
            } else {
                Err(join4("ffmpeg decode ", path, " failed: ", &trim(&output.stderr)))
            }
        },
    }
}

/// What is decoded where the built-in decoder failed with `first`: what the
/// external one gives, once the header tells rate and channels.
pub open spec fn falls_back<
    P: Fn() -> Result<(u32, usize), String>,
    X: Fn(u32, usize) -> Result<OggDecode, String>,
>(first: Seq<char>, probe: P, external: X, out: Result<OggDecode, String>) -> bool {
    exists|header: Result<(u32, usize), String>| #[trigger]
        call_ensures(probe, (), header) && match header {
            Err(e) => out is Err && out->Err_0@ == "symphonia decode failed: "@ + first
                + "; ffmpeg fallback could not probe header: "@ + e@,
            Ok(shape) => exists|second: Result<OggDecode, String>| #[trigger]
                call_ensures(external, (shape.0, shape.1), second) && match second {
                    Ok(decoded) => out == Ok::<OggDecode, String>(decoded),
                    Err(e) => out is Err && out->Err_0@ == "symphonia decode failed: "@ + first
                        + "; fallback ffmpeg decode failed: "@ + e@,
                },
        }
}

/// Whether the setting asks for the external decoder.
pub open spec fn wants_external(setting: Option<&str>) -> bool {
    setting matches Some(value) && text::lower(text::trimmed(value@)) == "ffmpeg"@
}

/// Decodes with the external decoder where the setting asks for it, and else with
/// the built-in one, for which the external one steps in where it fails.
pub fn decode_ogg_mono_like_python<
    P: Fn() -> Result<(u32, usize), String>,
    B: Fn() -> Result<OggDecode, String>,
    X: Fn(u32, usize) -> Result<OggDecode, String>,
>(setting: Option<&str>, probe: P, builtin: B, external: X) -> (out: Result<OggDecode, String>)
    requires
        call_requires(probe, ()),
        call_requires(builtin, ()),
        forall|rate: u32, channels: usize| #[trigger] call_requires(external, (rate, channels)),
    ensures
        wants_external(setting) ==> exists|header: Result<(u32, usize), String>| #[trigger]
            call_ensures(probe, (), header) && match header {
                Err(e) => out == Err::<OggDecode, String>(e),
                Ok(shape) => call_ensures(external, (shape.0, shape.1), out),
            },
        !wants_external(setting) ==> exists|first: Result<OggDecode, String>| #[trigger]
            call_ensures(builtin, (), first) && match first {
                Ok(decoded) => out == Ok::<OggDecode, String>(decoded),
                Err(e) => falls_back(e@, probe, external, out),
            },
{
    let ask_external: bool = match decoder_pref(setting) {
        Some(name) => same_text(&name, "ffmpeg"),
        None => false,
    };
    assert(ask_external == wants_external(setting)) by {
        reveal_strlit("ffmpeg");
        if let Some(value) = setting {
            assert(text::lower(text::trimmed(value@)).len() == text::trimmed(value@).len());
        }
    }
    if ask_external {
        let header: Result<(u32, usize), String> = probe();
        return match header {
            Ok(shape) => external(shape.0, shape.1),
            Err(e) => Err(e),
        };
    }
    let first: Result<OggDecode, String> = builtin();
    match first {
        Ok(decoded) => Ok(decoded),
        Err(e) => {
            let header: Result<(u32, usize), String> = probe();
            match header {
                Err(probe_err) => {
                    let out: Result<OggDecode, String> = Err(
                        join4(
                            "symphonia decode failed: ",
                            &e,
                            "; ffmpeg fallback could not probe header: ",
                            &probe_err,
                        ),
                    );
                    assert(call_ensures(probe, (), header));
                    out
                },
                Ok(shape) => {
                    let second: Result<OggDecode, String> = external(shape.0, shape.1);
                    assert(call_ensures(external, (shape.0, shape.1), second));
                    match second {
                        Ok(decoded) => Ok(decoded),
                        Err(ffmpeg_err) => Err(
                            join4(
                                "symphonia decode failed: ",
                                &e,
                                "; fallback ffmpeg decode failed: ",
                                &ffmpeg_err,
                            ),
                        ),
                    }
                },
            }
        },
    }
}

/// There is one track that is taken just where some track has a codec: the first that has one.
pub proof fn the_first_track_with_a_codec_is_taken(tracks: Seq<TrackInfo>, i: int, j: int)
    ensures
        first_usable(tracks, i) && first_usable(tracks, j) ==> i == j,
        first_usable(tracks, i) && 0 <= j < tracks.len() && tracks[j].has_codec ==> i <= j,
        first_usable(tracks, i) ==> 0 <= i < tracks.len() && tracks[i].has_codec,
        0 <= j < tracks.len() && tracks[j].has_codec ==> exists|k: int|
            #[trigger] first_usable(tracks, k),
{
    if 0 <= j < tracks.len() && tracks[j].has_codec {
        lemma_first_usable(tracks, j);
    }
}

proof fn lemma_first_usable(tracks: Seq<TrackInfo>, j: int)
    requires
        0 <= j < tracks.len(),
        tracks[j].has_codec,
    ensures
        exists|k: int| #[trigger] first_usable(tracks, k),
    decreases j,
{
    if exists|k: int| 0 <= k < j && (#[trigger] tracks[k]).has_codec {
        let k = choose|k: int| 0 <= k < j && (#[trigger] tracks[k]).has_codec;
        lemma_first_usable(tracks, k);
    } else {
        assert(first_usable(tracks, j));
    }
}

/// The external decoder is asked for by one word, in any case of letters and with any white
/// space round it, and by nothing else.
pub proof fn one_word_asks_for_the_external_decoder(value: &str, same: &str)
    ensures
        !wants_external(None),
        text::lower(text::trimmed(value@)) == "ffmpeg"@ <==> wants_external(Some(value)),
        text::lower(text::trimmed(value@)) == text::lower(text::trimmed(same@)) ==> wants_external(
            Some(value),
        ) == wants_external(Some(same)),
{
}

/// Where the built-in decoder failed, what is decoded is what the external one gives for the
/// rate and the channels in the header, and nothing else. Where that fails too, what is told
/// starts with what the first failed with and ends with what the second did.
pub proof fn only_the_external_decoder_helps<
    P: Fn() -> Result<(u32, usize), String>,
    X: Fn(u32, usize) -> Result<OggDecode, String>,
>(first: Seq<char>, probe: P, external: X, out: Result<OggDecode, String>) -> (told: (
    Result<(u32, usize), String>,
    Result<OggDecode, String>,
))
    requires
        falls_back(first, probe, external, out),
    ensures
        call_ensures(probe, (), told.0),
        out is Ok ==> told.0 is Ok && told.1 == out,
        told.0 is Ok ==> call_ensures(external, (told.0->Ok_0.0, told.0->Ok_0.1), told.1),
        told.0 is Ok && told.1 is Ok ==> out is Ok,
        told.0 is Err ==> out is Err && out->Err_0@ == "symphonia decode failed: "@ + first
            + "; ffmpeg fallback could not probe header: "@ + told.0->Err_0@,
        told.0 is Ok && told.1 is Err ==> out is Err && out->Err_0@ == "symphonia decode failed: "@
            + first + "; fallback ffmpeg decode failed: "@ + told.1->Err_0@,
{
    let header = choose|header: Result<(u32, usize), String>| #[trigger]
        call_ensures(probe, (), header) && match header {
            Err(e) => out is Err && out->Err_0@ == "symphonia decode failed: "@ + first
                + "; ffmpeg fallback could not probe header: "@ + e@,
            Ok(shape) => exists|second: Result<OggDecode, String>| #[trigger]
                call_ensures(external, (shape.0, shape.1), second) && match second {
                    Ok(decoded) => out == Ok::<OggDecode, String>(decoded),
                    Err(e) => out is Err && out->Err_0@ == "symphonia decode failed: "@ + first
                        + "; fallback ffmpeg decode failed: "@ + e@,
                },
        };
    match header {
        Err(_) => (header, out),
        Ok(shape) => {
            let second = choose|second: Result<OggDecode, String>| #[trigger]
                call_ensures(external, (shape.0, shape.1), second) && match second {
                    Ok(decoded) => out == Ok::<OggDecode, String>(decoded),
                    Err(e) => out is Err && out->Err_0@ == "symphonia decode failed: "@ + first
                        + "; fallback ffmpeg decode failed: "@ + e@,
                };
            (header, second)
        },
    }
}

} // verus!
