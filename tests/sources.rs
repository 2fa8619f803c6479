use ir_blink::{
    decode_button, CommandWord, EdgeClock, PeriodicSampler, Pulse, Receiver, RemoteButton,
};

fn word(address: u8, command: u8) -> u32 {
    address as u32 | ((!address as u32) << 8) | ((command as u32) << 16) | ((!command as u32) << 24)
}

/// (mark, microseconds) of a frame.
fn frame_us(address: u8, command: u8) -> Vec<(bool, u32)> {
    let w = word(address, command);
    let mut v = vec![(true, 9000), (false, 4500)];
    for i in 0..32 {
        v.push((true, 560));
        v.push((false, if (w >> i) & 1 == 1 { 1690 } else { 560 }));
    }
    v.push((true, 560));
    v
}

#[test]
fn edge_clock_measures_intervals() {
    let mut c = EdgeClock::new();
    assert_eq!(c.edge(5_000), 0);
    assert_eq!(c.edge(14_005), 900);
    assert_eq!(c.edge(14_564), 55);
    assert_eq!(c.edge(14_000), 0);
    assert_eq!(c.previous, Some(14_000));
}

#[test]
fn sampler_rebuilds_runs() {
    let mut s = PeriodicSampler::new(5);
    assert_eq!(s.sample(false), None);
    assert_eq!(s.sample(true), Some(Pulse { mark: false, duration: 5 }));
    assert_eq!(s.sample(true), None);
    assert_eq!(s.sample(true), None);
    assert_eq!(s.sample(false), Some(Pulse { mark: true, duration: 15 }));
    assert_eq!(s.level, false);
    assert_eq!(s.run, 1);
}

#[test]
fn button_table() {
    assert_eq!(decode_button(0x77, 0x0C), Some(RemoteButton::Down));
    assert_eq!(decode_button(0x77, 0x0A), Some(RemoteButton::Up));
    assert_eq!(decode_button(0x77, 0x5F), Some(RemoteButton::PlayPause));
    assert_eq!(decode_button(0x77, 0x42), None);
    assert_eq!(decode_button(0x10, 0x0C), None);
}

#[test]
fn edge_driven_receiver_decodes_and_blinks() {
    let mut r = Receiver::new(12000, 100_000, 5);
    let mut t: u64 = 1_000_000;
    // idle line, then the first edge starts the header mark
    assert_eq!(r.on_edge(t, true), None);
    let f = frame_us(0x77, 0x0C);
    let mut got = Vec::new();
    for (i, (m, us)) in f.iter().enumerate() {
        t += *us as u64;
        let next_mark = if i + 1 < f.len() { f[i + 1].0 } else { !*m };
        assert_eq!(next_mark, !*m);
        if let Some(x) = r.on_edge(t, next_mark) {
            got.push(x);
        }
    }
    assert_eq!(
        got,
        vec![(CommandWord { address: 0x77, command: 0x0C, is_repeat: false }, Some(RemoteButton::Down))]
    );
    assert!(r.indicator.active);
    assert!(ir_blink::idle(&mut r.indicator, t + 100_000));
    assert!(!r.indicator.active);
}

#[test]
fn periodic_receiver_decodes_same_command() {
    // 20 kHz sampling: one sample every 50 us, five decoder units
    let mut r = Receiver::new(12000, 100_000, 5);
    let mut t: u64 = 0;
    for _ in 0..100 {
        assert_eq!(r.on_sample(t, false), None);
        t += 50;
    }
    let mut got = Vec::new();
    for (m, us) in frame_us(0x77, 0x0C) {
        for _ in 0..(us + 25) / 50 {
            if let Some(x) = r.on_sample(t, m) {
                got.push(x);
            }
            t += 50;
        }
    }
    if let Some(x) = r.on_sample(t, false) {
        got.push(x);
    }
    assert_eq!(
        got,
        vec![(CommandWord { address: 0x77, command: 0x0C, is_repeat: false }, Some(RemoteButton::Down))]
    );
}

#[test]
fn unmapped_command_still_blinks() {
    let mut r = Receiver::new(12000, 100_000, 5);
    let mut got = Vec::new();
    let mut t = 0u64;
    for (m, us) in frame_us(0x01, 0x02) {
        t += us as u64;
        if let Some(x) = r.react(Pulse { mark: m, duration: us / 10 }, t) {
            got.push(x);
        }
    }
    assert_eq!(got, vec![(CommandWord { address: 0x01, command: 0x02, is_repeat: false }, None)]);
    assert!(r.indicator.active);
}
