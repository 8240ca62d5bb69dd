use null_or_die::audio::{
    append_python_mono_like, decode_ogg_mono_like_python, decoder_pref, ffmpeg_outcome,
    mono_from_interleaved_pcm_i16, planes_used, take_packet, trim_padding, usable_track,
    DecodeStep, OggDecode, PacketEvent, TrackInfo,
};
use null_or_die::model::ProcessOutput;

const PCM_INV_SCALE: f32 = 1.0 / 32768.0;

fn scaled(samples: &[i16]) -> Vec<f32> {
    samples.iter().map(|s| f32::from(*s) * PCM_INV_SCALE).collect()
}

#[test]
fn stereo_collapse_uses_channel_max() {
    let mut samples = Vec::new();
    append_python_mono_like(&vec![vec![100, -3200], vec![200, -6400]], 2, &mut samples);
    let out = scaled(&samples);
    assert_eq!(out.len(), 2);
    assert!((out[0] - (200.0 / 32768.0)).abs() < 1e-7);
    assert!((out[1] - (-3200.0 / 32768.0)).abs() < 1e-7);
}

#[test]
fn mono_passthrough_is_normalized() {
    let mut samples = Vec::new();
    append_python_mono_like(&vec![vec![32767, 0, -32768]], 1, &mut samples);
    let out = scaled(&samples);
    assert_eq!(out.len(), 3);
    assert!((out[0] - (32767.0 / 32768.0)).abs() < 1e-7);
    assert_eq!(out[1], 0.0);
    assert_eq!(out[2], -1.0);
}

#[test]
fn multichannel_passthrough_stays_interleaved() {
    let mut samples = Vec::new();
    append_python_mono_like(
        &vec![vec![1, 2], vec![10, 20], vec![100, 200]],
        1,
        &mut samples,
    );
    let out = scaled(&samples);
    assert_eq!(out.len(), 6);
    assert!((out[0] - (1.0 / 32768.0)).abs() < 1e-7);
    assert!((out[1] - (10.0 / 32768.0)).abs() < 1e-7);
    assert!((out[2] - (100.0 / 32768.0)).abs() < 1e-7);
    assert!((out[3] - (2.0 / 32768.0)).abs() < 1e-7);
    assert!((out[4] - (20.0 / 32768.0)).abs() < 1e-7);
    assert!((out[5] - (200.0 / 32768.0)).abs() < 1e-7);
}

#[test]
fn ffmpeg_pcm_stereo_uses_channel_max() {
    let bytes = vec![100u8, 0, 200, 0, 0x80, 0xff, 0x00, 0x80];
    let out = scaled(&mono_from_interleaved_pcm_i16(&bytes, 2));
    assert_eq!(out.len(), 2);
    assert!((out[0] - (200.0 / 32768.0)).abs() < 1e-7);
    assert!((out[1] - (-128.0 / 32768.0)).abs() < 1e-7);
}

#[test]
fn interleaved_samples_of_other_channel_counts() {
    let bytes: Vec<u8> = vec![1, 0, 0xff, 0xff, 0, 0x80, 0xff, 0x7f, 5];
    assert!(mono_from_interleaved_pcm_i16(&bytes, 0).is_empty());
    assert_eq!(
        mono_from_interleaved_pcm_i16(&bytes, 1),
        vec![1, -1, -32768, 32767]
    );
    assert_eq!(mono_from_interleaved_pcm_i16(&bytes, 3), vec![1, -1, -32768]);
    assert_eq!(mono_from_interleaved_pcm_i16(&bytes, 2), vec![1, 32767]);
}

#[test]
fn stereo_stops_with_the_shorter_channel() {
    let mut samples = vec![7];
    append_python_mono_like(&vec![vec![1, 2, 3], vec![4, 0]], 2, &mut samples);
    assert_eq!(samples, vec![7, 4, 2]);
    append_python_mono_like(&Vec::new(), 2, &mut samples);
    assert_eq!(samples, vec![7, 4, 2]);
}

#[test]
fn planes_are_no_more_than_either_side_has() {
    assert_eq!(planes_used(2, 6), 2);
    assert_eq!(planes_used(6, 2), 2);
    assert_eq!(planes_used(3, 0), 1);
    assert_eq!(planes_used(0, 0), 0);
}

#[test]
fn the_first_track_with_a_codec_is_used() {
    let silent = TrackInfo {
        has_codec: false,
        sample_rate: Some(1),
        channels: Some(1),
    };
    let good = TrackInfo {
        has_codec: true,
        sample_rate: Some(44100),
        channels: Some(2),
    };
    assert_eq!(usable_track("a.ogg", &vec![silent, good]), Ok((1, 44100, 2)));
    assert_eq!(
        usable_track("a.ogg", &vec![silent]),
        Err("ogg a.ogg has no usable audio track".to_string())
    );
    let mut odd = good;
    odd.sample_rate = None;
    assert_eq!(
        usable_track("a.ogg", &vec![odd]),
        Err("ogg a.ogg missing sample rate".to_string())
    );
    let mut odd = good;
    odd.channels = None;
    assert_eq!(
        usable_track("a.ogg", &vec![odd]),
        Err("ogg a.ogg missing channel layout".to_string())
    );
}

#[test]
fn packets_lead_on_or_end_the_decoding() {
    let mut mono = Vec::new();
    assert!(matches!(
        take_packet(
            "a.ogg",
            2,
            PacketEvent::Samples(vec![vec![1, 5], vec![3, 2]]),
            &mut mono
        ),
        DecodeStep::More
    ));
    assert!(matches!(
        take_packet("a.ogg", 2, PacketEvent::Foreign, &mut mono),
        DecodeStep::More
    ));
    assert!(matches!(
        take_packet("a.ogg", 2, PacketEvent::Damaged, &mut mono),
        DecodeStep::More
    ));
    assert!(matches!(
        take_packet("a.ogg", 2, PacketEvent::Ended, &mut mono),
        DecodeStep::Finished
    ));
    assert!(matches!(
        take_packet("a.ogg", 2, PacketEvent::Reset, &mut mono),
        DecodeStep::Finished
    ));
    match take_packet("a.ogg", 2, PacketEvent::Unreadable("gone".to_string()), &mut mono) {
        DecodeStep::Failed(e) => assert_eq!(e, "ogg read a.ogg failed: gone"),
        _ => panic!("an unreadable packet ends the decoding"),
    }
    match take_packet("a.ogg", 2, PacketEvent::Undecodable("bad".to_string()), &mut mono) {
        DecodeStep::Failed(e) => assert_eq!(e, "ogg decode a.ogg failed: bad"),
        _ => panic!("an undecodable packet ends the decoding"),
    }
    assert_eq!(mono, vec![3, 5]);
}

#[test]
fn padding_is_cut_where_there_is_as_much() {
    assert_eq!(trim_padding(48000, vec![1, 2, 3], 1).mono, vec![1, 2]);
    assert_eq!(trim_padding(48000, vec![1, 2, 3], 0).mono, vec![1, 2, 3]);
    assert_eq!(trim_padding(48000, vec![1, 2, 3], 3).mono, Vec::<i16>::new());
    assert_eq!(trim_padding(48000, vec![1, 2, 3], 4).mono, vec![1, 2, 3]);
    assert_eq!(trim_padding(48000, vec![1], 1).sample_rate_hz, 48000);
}

#[test]
fn decoder_preference_is_trimmed_and_lowered() {
    assert_eq!(decoder_pref(None), None);
    assert_eq!(decoder_pref(Some("  ")), None);
    assert_eq!(decoder_pref(Some(" FFmpeg\n")), Some("ffmpeg".to_string()));
}

fn output(success: bool, stdout: Vec<u8>, stderr: &str) -> ProcessOutput {
    ProcessOutput {
        success,
        code: Some(if success { 0 } else { 1 }),
        stdout,
        stderr: stderr.to_string(),
    }
}

#[test]
fn external_decoder_outcomes() {
    let good = ffmpeg_outcome("a.ogg", Ok(output(true, vec![2, 0, 1, 0], "")), 8000, 2)
        .expect("samples");
    assert_eq!(good.mono, vec![2]);
    assert_eq!(good.sample_rate_hz, 8000);
    assert_eq!(
        ffmpeg_outcome("a.ogg", Ok(output(false, Vec::new(), " no such file\n")), 8000, 2).err(),
        Some("ffmpeg decode a.ogg failed: no such file".to_string())
    );
    assert_eq!(
        ffmpeg_outcome("a.ogg", Err("not found".to_string()), 8000, 2).err(),
        Some("ffmpeg decode a.ogg failed: not found".to_string())
    );
}

fn sound(v: i16) -> OggDecode {
    OggDecode {
        sample_rate_hz: 1,
        mono: vec![v],
    }
}

#[test]
fn decoders_fall_back() {
    let header = || Ok((8000u32, 2usize));
    let no_header = || Err::<(u32, usize), String>("odd header".to_string());
    let builtin = || Ok(sound(1));
    let broken = || Err::<OggDecode, String>("bad stream".to_string());
    let external = |_: u32, _: usize| Ok(sound(2));
    let missing = |_: u32, _: usize| Err::<OggDecode, String>("no ffmpeg".to_string());
    let mono = |r: Result<OggDecode, String>| r.map(|d| d.mono);
    assert_eq!(
        mono(decode_ogg_mono_like_python(None, header, builtin, external)),
        Ok(vec![1])
    );
    assert_eq!(
        mono(decode_ogg_mono_like_python(Some(" FFmpeg "), header, builtin, external)),
        Ok(vec![2])
    );
    assert_eq!(
        mono(decode_ogg_mono_like_python(Some("  "), header, builtin, external)),
        Ok(vec![1])
    );
    assert_eq!(
        mono(decode_ogg_mono_like_python(Some("ffmpeg"), no_header, builtin, external)),
        Err("odd header".to_string())
    );
    assert_eq!(
        mono(decode_ogg_mono_like_python(Some("auto"), header, broken, external)),
        Ok(vec![2])
    );
    assert_eq!(
        mono(decode_ogg_mono_like_python(None, no_header, broken, external)),
        Err("symphonia decode failed: bad stream; ffmpeg fallback could not probe header: odd header".to_string())
    );
    assert_eq!(
        mono(decode_ogg_mono_like_python(None, header, broken, missing)),
        Err("symphonia decode failed: bad stream; fallback ffmpeg decode failed: no ffmpeg".to_string())
    );
}

#[test]
fn both_decodings_agree() {
    for channels in 1..=4usize {
        let packet: Vec<Vec<i16>> = (0..channels)
            .map(|c| (0..5).map(|i| (i * 9000) as i16 - 20000 + 77 * c as i16).collect())
            .collect();
        let mut bytes = Vec::new();
        for i in 0..5 {
            for plane in &packet {
                bytes.extend_from_slice(&plane[i].to_le_bytes());
            }
        }
        let mut apart = Vec::new();
        append_python_mono_like(&packet, channels, &mut apart);
        assert_eq!(mono_from_interleaved_pcm_i16(&bytes, channels), apart);
        assert_eq!(apart.len(), if channels == 2 { 5 } else { 5 * channels });
    }
}
