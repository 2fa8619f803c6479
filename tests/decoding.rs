use ir_blink::{CommandWord, DecodeError, Decoder, DecoderState, Pulse};

fn mark(us: u32) -> Pulse {
    Pulse { mark: true, duration: us / 10 }
}

fn space(us: u32) -> Pulse {
    Pulse { mark: false, duration: us / 10 }
}

fn frame_of_word(word: u32) -> Vec<Pulse> {
    let mut v = vec![mark(9000), space(4500)];
    for i in 0..32 {
        v.push(mark(560));
        if (word >> i) & 1 == 1 {
            v.push(space(1690));
        } else {
            v.push(space(560));
        }
    }
    v.push(mark(560));
    v
}

fn frame(address: u8, command: u8) -> Vec<Pulse> {
    let word = address as u32
        | ((!address as u32) << 8)
        | ((command as u32) << 16)
        | ((!command as u32) << 24);
    frame_of_word(word)
}

fn repeat_frame() -> Vec<Pulse> {
    vec![mark(9000), space(2250), mark(560)]
}

fn feed_all(d: &mut Decoder, ps: &[Pulse]) -> Vec<Result<CommandWord, DecodeError>> {
    let mut out = Vec::new();
    for p in ps {
        if let Some(r) = d.feed(*p) {
            out.push(r);
        }
    }
    out
}

#[test]
fn nec_frame_decodes_address_and_command() {
    let mut d = Decoder::new(12000);
    let out = feed_all(&mut d, &frame(0x77, 0x0C));
    assert_eq!(out, vec![Ok(CommandWord { address: 0x77, command: 0x0C, is_repeat: false })]);
    assert_eq!(d.state, DecoderState::Idle);
}

#[test]
fn every_byte_pair_round_trips() {
    let mut d = Decoder::new(12000);
    for (a, c) in [(0u8, 0u8), (0xFF, 0xFF), (0x01, 0x80), (0xA5, 0x5A)] {
        let out = feed_all(&mut d, &frame(a, c));
        assert_eq!(out, vec![Ok(CommandWord { address: a, command: c, is_repeat: false })]);
    }
}

#[test]
fn output_only_on_stop_mark() {
    let mut d = Decoder::new(12000);
    let f = frame(0x12, 0x34);
    for p in &f[..f.len() - 1] {
        assert_eq!(d.feed(*p), None);
    }
    assert_eq!(
        d.feed(f[f.len() - 1]),
        Some(Ok(CommandWord { address: 0x12, command: 0x34, is_repeat: false }))
    );
}

#[test]
fn jittered_intervals_within_bands_decode() {
    let mut d = Decoder::new(12000);
    let mut f = frame(0x77, 0x0C);
    for (i, p) in f.iter_mut().enumerate() {
        if i % 3 == 0 {
            p.duration = p.duration * 11 / 10;
        } else if i % 3 == 1 {
            p.duration = p.duration * 9 / 10;
        }
    }
    let out = feed_all(&mut d, &f);
    assert_eq!(out, vec![Ok(CommandWord { address: 0x77, command: 0x0C, is_repeat: false })]);
}

#[test]
fn bad_inverted_address_is_checksum_mismatch_then_recovers() {
    let mut d = Decoder::new(12000);
    // inverted address byte 0x00 does not complement 0x77
    let word = 0x77u32 | (0x00 << 8) | (0x0C << 16) | (0xF3 << 24);
    let out = feed_all(&mut d, &frame_of_word(word));
    assert_eq!(out, vec![Err(DecodeError::ChecksumMismatch)]);
    assert_eq!(d.state, DecoderState::Idle);
    let out = feed_all(&mut d, &frame(0x77, 0x0C));
    assert_eq!(out, vec![Ok(CommandWord { address: 0x77, command: 0x0C, is_repeat: false })]);
}

#[test]
fn bad_inverted_command_is_checksum_mismatch() {
    let mut d = Decoder::new(12000);
    let word = 0x77u32 | (0x88 << 8) | (0x0C << 16) | (0x0C << 24);
    let out = feed_all(&mut d, &frame_of_word(word));
    assert_eq!(out, vec![Err(DecodeError::ChecksumMismatch)]);
}

#[test]
fn repeat_within_window_repeats_last_command() {
    let mut d = Decoder::new(12000);
    feed_all(&mut d, &frame(0x77, 0x0C));
    d.feed(space(40000));
    let out = feed_all(&mut d, &repeat_frame());
    assert_eq!(out, vec![Ok(CommandWord { address: 0x77, command: 0x0C, is_repeat: true })]);
    // a second repeat a frame period later is still in the window
    d.feed(space(96000));
    let out = feed_all(&mut d, &repeat_frame());
    assert_eq!(out, vec![Ok(CommandWord { address: 0x77, command: 0x0C, is_repeat: true })]);
}

#[test]
fn repeat_outside_window_is_rejected() {
    let mut d = Decoder::new(12000);
    feed_all(&mut d, &frame(0x77, 0x0C));
    d.feed(space(200000));
    let out = feed_all(&mut d, &repeat_frame());
    assert_eq!(out, vec![Err(DecodeError::RepeatOutOfWindow)]);
    assert_eq!(d.state, DecoderState::Idle);
}

#[test]
fn repeat_without_prior_frame_is_rejected() {
    let mut d = Decoder::new(12000);
    let out = feed_all(&mut d, &repeat_frame());
    assert_eq!(out, vec![Err(DecodeError::RepeatOutOfWindow)]);
}

#[test]
fn unclassifiable_interval_is_timing_out_of_range() {
    let mut d = Decoder::new(12000);
    let mut f = frame(0x77, 0x0C);
    f[10] = space(1000);
    let out = feed_all(&mut d, &f[..11]);
    assert_eq!(out, vec![Err(DecodeError::TimingOutOfRange)]);
    assert_eq!(d.state, DecoderState::Idle);
}

#[test]
fn wrong_header_space_is_timing_out_of_range() {
    let mut d = Decoder::new(12000);
    let out = feed_all(&mut d, &[mark(9000), space(3300)]);
    assert_eq!(out, vec![Err(DecodeError::TimingOutOfRange)]);
}

#[test]
fn abandoned_frame_times_out() {
    let mut d = Decoder::new(12000);
    let f = frame(0x77, 0x0C);
    feed_all(&mut d, &f[..6]);
    let out = feed_all(&mut d, &[space(200000)]);
    assert_eq!(out, vec![Err(DecodeError::FrameTimeout)]);
    assert_eq!(d.state, DecoderState::Idle);
    let out = feed_all(&mut d, &f);
    assert_eq!(out, vec![Ok(CommandWord { address: 0x77, command: 0x0C, is_repeat: false })]);
}

#[test]
fn leading_zero_and_noise_are_ignored_when_idle() {
    let mut d = Decoder::new(12000);
    assert_eq!(d.feed(Pulse { mark: true, duration: 0 }), None);
    assert_eq!(d.feed(space(123)), None);
    assert_eq!(d.feed(mark(700)), None);
    assert_eq!(d.state, DecoderState::Idle);
    let out = feed_all(&mut d, &frame(0x77, 0x0C));
    assert_eq!(out, vec![Ok(CommandWord { address: 0x77, command: 0x0C, is_repeat: false })]);
}
