use vstd::prelude::*;
use vstd::arithmetic::power2::{lemma2_to64, pow2};
use vstd::bits::{lemma_u32_pow2_no_overflow, lemma_u32_shl_is_mul};
use crate::timing::{clamp_u32, Pulse};

verus! {

// Timing classes, in decoder time units of ten microseconds: inclusive
// bands around the nominal lengths of the pulse-distance protocol.
/// Header mark, nominally 9 ms.
pub const HEADER_MARK_MIN: u32 = 720;
pub const HEADER_MARK_MAX: u32 = 1080;
/// Header space of a new frame, nominally 4.5 ms.
pub const HEADER_SPACE_MIN: u32 = 360;
pub const HEADER_SPACE_MAX: u32 = 540;
/// Space of a repeat frame, nominally 2.25 ms.
pub const REPEAT_SPACE_MIN: u32 = 180;
pub const REPEAT_SPACE_MAX: u32 = 270;
/// Mark that opens each data bit and ends the frame, nominally 560 us.
pub const BIT_MARK_MIN: u32 = 40;
pub const BIT_MARK_MAX: u32 = 72;
/// Space of a zero bit, nominally 560 us.
pub const ZERO_SPACE_MIN: u32 = 40;
pub const ZERO_SPACE_MAX: u32 = 72;
/// Space of a one bit, nominally 1.69 ms.
pub const ONE_SPACE_MIN: u32 = 135;
pub const ONE_SPACE_MAX: u32 = 203;
/// Longest a frame may take, from the start of its header mark; above the
/// longest frame the bands admit.
pub const MAX_FRAME_UNITS: u32 = 11000;
/// Number of data bits in a frame.
pub const FRAME_BITS: u32 = 32;

pub open spec fn within(d: u32, lo: u32, hi: u32) -> bool {
    lo <= d <= hi
}

/// Why a frame was dropped. The decoder is back in `Idle` after each.
#[derive(Clone, Copy, Debug, PartialEq, Eq, Structural)]
pub enum DecodeError {
    /// An interval matched none of the classes expected at that point.
    TimingOutOfRange,
    /// The inverted address or command byte did not complement its byte.
    ChecksumMismatch,
    /// The frame ran longer than any valid frame can.
    FrameTimeout,
    /// A repeat frame came with no recent valid frame to repeat.
    RepeatOutOfWindow,
}

/// The payload of a frame.
#[derive(Clone, Copy, Debug, PartialEq, Eq, Structural)]
pub struct CommandWord {
    pub address: u8,
    pub command: u8,
    pub is_repeat: bool,
}

/// Where the decoder stands within a frame.
#[derive(Clone, Copy, Debug, PartialEq, Eq, Structural)]
pub enum DecoderState {
    Idle,
    AwaitingHeaderSpace,
    /// `index` bits are in `acc`, least significant first; `in_space` tells
    /// whether the mark of bit `index` has been seen.
    ReceivingBits { index: u32, acc: u32, in_space: bool },
    AwaitingStop { acc: u32 },
}

/// What one interval produced: nothing yet, a command, or a dropped frame.
pub type Output = Option<Result<CommandWord, DecodeError>>;

/// Pulse-distance frame decoder.
#[derive(Clone, Copy, Debug, PartialEq, Eq, Structural)]
pub struct Decoder {
    pub state: DecoderState,
    /// Time since the start of the current frame's header mark.
    pub frame_time: u32,
    /// Time since the last valid frame or repeat ended (saturating).
    pub since_valid: u32,
    /// The last valid command, which a repeat frame repeats.
    pub last: Option<CommandWord>,
    /// How long after a valid frame a repeat frame is still accepted.
    pub repeat_window: u32,
}

/// The four bytes of a received word are address, inverted address,
/// command, inverted command, first byte lowest.
pub open spec fn byte_of(acc: u32, k: nat) -> nat {
    (acc as nat / pow2(8 * k)) % 256
}

pub open spec fn checksum_ok(acc: u32) -> bool {
    byte_of(acc, 0) + byte_of(acc, 1) == 255 && byte_of(acc, 2) + byte_of(acc, 3) == 255
}

pub open spec fn command_of(acc: u32) -> CommandWord {
    CommandWord { address: byte_of(acc, 0) as u8, command: byte_of(acc, 2) as u8, is_repeat: false }
}

/// The state after data bit `index` has been received into `acc`.
pub open spec fn after_bit(index: u32, acc: u32) -> DecoderState {
    if index + 1 == FRAME_BITS {
        DecoderState::AwaitingStop { acc }
    } else {
        DecoderState::ReceivingBits { index: (index + 1) as u32, acc, in_space: false }
    }
}

impl Decoder {
    pub open spec fn wf(self) -> bool {
        &&& self.frame_time <= MAX_FRAME_UNITS
        &&& match self.state {
            DecoderState::ReceivingBits { index, acc, in_space } => index < FRAME_BITS && acc < pow2(
                index as nat,
            ),
            _ => true,
        }
    }

    /// Back to `Idle`, keeping what is known of past frames.
    pub open spec fn restart(self, since: u32) -> Decoder {
        Decoder { state: DecoderState::Idle, frame_time: 0, since_valid: since, ..self }
    }

    /// Within a frame, on to state `s`.
    pub open spec fn advance(self, s: DecoderState, ft: u32, since: u32) -> Decoder {
        Decoder { state: s, frame_time: ft, since_valid: since, ..self }
    }

    /// The decoder's response to one interval.
    pub open spec fn step(self, p: Pulse) -> (Decoder, Output) {
        let since = clamp_u32(self.since_valid + p.duration);
        let d = p.duration;
        let timing = Some(Err(DecodeError::TimingOutOfRange));
        match self.state {
            DecoderState::Idle => {
                if p.mark && within(d, HEADER_MARK_MIN, HEADER_MARK_MAX) {
                    (self.advance(DecoderState::AwaitingHeaderSpace, d, since), None)
                } else {
                    (Decoder { since_valid: since, ..self }, None)
                }
            },
            _ => if self.frame_time + d > MAX_FRAME_UNITS {
                (self.restart(since), Some(Err(DecodeError::FrameTimeout)))
            } else {
                let ft = (self.frame_time + d) as u32;
                match self.state {
                    DecoderState::AwaitingHeaderSpace => {
                        if !p.mark && within(d, HEADER_SPACE_MIN, HEADER_SPACE_MAX) {
                            (
                                self.advance(
                                    DecoderState::ReceivingBits { index: 0, acc: 0, in_space: false },
                                    ft,
                                    since,
                                ),
                                None,
                            )
                        } else if !p.mark && within(d, REPEAT_SPACE_MIN, REPEAT_SPACE_MAX) {
                            match self.last {
                                Some(c) => if since <= self.repeat_window {
                                    (
                                        self.restart(0),
                                        Some(Ok(CommandWord { is_repeat: true, ..c })),
                                    )
                                } else {
                                    (self.restart(since), Some(Err(DecodeError::RepeatOutOfWindow)))
                                },
                                None => (
                                    self.restart(since),
                                    Some(Err(DecodeError::RepeatOutOfWindow)),
                                ),
                            }
                        } else {
                            (self.restart(since), timing)
                        }
                    },
                    DecoderState::ReceivingBits { index, acc, in_space } => {
                        if !in_space {
                            if p.mark && within(d, BIT_MARK_MIN, BIT_MARK_MAX) {
                                (
                                    self.advance(
                                        DecoderState::ReceivingBits { index, acc, in_space: true },
                                        ft,
                                        since,
                                    ),
                                    None,
                                )
                            } else {
                                (self.restart(since), timing)
                            }
                        } else if !p.mark && within(d, ZERO_SPACE_MIN, ZERO_SPACE_MAX) {
                            (self.advance(after_bit(index, acc), ft, since), None)
                        } else if !p.mark && within(d, ONE_SPACE_MIN, ONE_SPACE_MAX) {
                            (
                                self.advance(
                                    after_bit(index, (acc + pow2(index as nat)) as u32),
                                    ft,
                                    since,
                                ),
                                None,
                            )
                        } else {
                            (self.restart(since), timing)
                        }
                    },
                    DecoderState::AwaitingStop { acc } => {
                        if p.mark && within(d, BIT_MARK_MIN, BIT_MARK_MAX) {
                            if checksum_ok(acc) {
                                (
                                    Decoder { last: Some(command_of(acc)), ..self.restart(0) },
                                    Some(Ok(command_of(acc))),
                                )
                            } else {
                                (self.restart(since), Some(Err(DecodeError::ChecksumMismatch)))
                            }
                        } else {
                            (self.restart(since), timing)
                        }
                    },
                    DecoderState::Idle => (self, None),
                }
            },
        }
    }

    /// A decoder in `Idle` that has seen no frame yet.
    pub open spec fn new_spec(repeat_window: u32) -> Decoder {
        Decoder { state: DecoderState::Idle, frame_time: 0, since_valid: 0, last: None, repeat_window }
    }

    pub fn new(repeat_window: u32) -> (r: Decoder)
        ensures
            r.wf(),
            r == Decoder::new_spec(repeat_window),
    {
        Decoder { state: DecoderState::Idle, frame_time: 0, since_valid: 0, last: None, repeat_window }
    }

    /// Feeds one interval to the decoder.
    pub fn feed(&mut self, p: Pulse) -> (r: Output)
        requires
            old(self).wf(),
        ensures
            final(self).wf(),
            (*final(self), r) == old(self).step(p),
    {
        let d = p.duration;
        let sum: u64 = self.since_valid as u64 + d as u64;
        let since: u32 = if sum > u32::MAX as u64 {
            u32::MAX
        } else {
            sum as u32
        };
        assert(since == clamp_u32(self.since_valid + p.duration));
        match self.state {
            DecoderState::Idle => {
                if p.mark && HEADER_MARK_MIN <= d && d <= HEADER_MARK_MAX {
                    self.state = DecoderState::AwaitingHeaderSpace;
                    self.frame_time = d;
                }
                self.since_valid = since;
                return None;
            },
            _ => {},
        }
        if self.frame_time as u64 + d as u64 > MAX_FRAME_UNITS as u64 {
            self.reset(since);
            return Some(Err(DecodeError::FrameTimeout));
        }
        let ft: u32 = self.frame_time + d;
        match self.state {
            DecoderState::AwaitingHeaderSpace => {
                if !p.mark && HEADER_SPACE_MIN <= d && d <= HEADER_SPACE_MAX {
                    self.state = DecoderState::ReceivingBits { index: 0, acc: 0, in_space: false };
                    self.frame_time = ft;
                    self.since_valid = since;
                    proof {
                        lemma2_to64();
                    }
                    None
                } else if !p.mark && REPEAT_SPACE_MIN <= d && d <= REPEAT_SPACE_MAX {
                    match self.last {
                        Some(c) => if since <= self.repeat_window {
                            self.reset(0);
                            Some(Ok(CommandWord { address: c.address, command: c.command, is_repeat: true }))
                        } else {
                            self.reset(since);
                            Some(Err(DecodeError::RepeatOutOfWindow))
                        },
                        None => {
                            self.reset(since);
                            Some(Err(DecodeError::RepeatOutOfWindow))
                        },
                    }
                } else {
                    self.reset(since);
                    Some(Err(DecodeError::TimingOutOfRange))
                }
            },
            DecoderState::ReceivingBits { index, acc, in_space } => {
                if !in_space {
                    if p.mark && BIT_MARK_MIN <= d && d <= BIT_MARK_MAX {
                        self.state = DecoderState::ReceivingBits { index, acc, in_space: true };
                        self.frame_time = ft;
                        self.since_valid = since;
                        None
                    } else {
                        self.reset(since);
                        Some(Err(DecodeError::TimingOutOfRange))
                    }
                } else if !p.mark && ZERO_SPACE_MIN <= d && d <= ZERO_SPACE_MAX {
                    proof {
                        vstd::arithmetic::power2::lemma_pow2_unfold((index + 1) as nat);
                    }
                    self.state = Self::next_bit(index, acc);
                    self.frame_time = ft;
                    self.since_valid = since;
                    None
                } else if !p.mark && ONE_SPACE_MIN <= d && d <= ONE_SPACE_MAX {
                    proof {
                        lemma_u32_pow2_no_overflow(index as nat);
                        lemma_u32_shl_is_mul(1, index);
                        lemma2_to64();
                        if index + 1 < FRAME_BITS {
                            vstd::arithmetic::power2::lemma_pow2_strictly_increases((index + 1) as nat, 32);
                        }
                        vstd::arithmetic::power2::lemma_pow2_unfold((index + 1) as nat);
                        if index + 1 < FRAME_BITS {
                            lemma_u32_pow2_no_overflow((index + 1) as nat);
                        }
                    }
                    let weight: u32 = 1u32 << index;
                    self.state = Self::next_bit(index, acc + weight);
                    self.frame_time = ft;
                    self.since_valid = since;
                    None
                } else {
                    self.reset(since);
                    Some(Err(DecodeError::TimingOutOfRange))
                }
            },
            DecoderState::AwaitingStop { acc } => {
                if p.mark && BIT_MARK_MIN <= d && d <= BIT_MARK_MAX {
                    proof {
                        lemma2_to64();
                    }
                    let address: u32 = acc % 256;
                    let inv_address: u32 = (acc / 256) % 256;
                    let command: u32 = (acc / 65536) % 256;
                    let inv_command: u32 = (acc / 16777216) % 256;
                    assert(pow2(8 * 0) == 1);
                    assert(byte_of(acc, 0) == address as nat);
                    assert(byte_of(acc, 1) == inv_address as nat);
                    assert(byte_of(acc, 2) == command as nat);
                    assert(byte_of(acc, 3) == inv_command as nat);
                    if address + inv_address == 255 && command + inv_command == 255 {
                        let c = CommandWord { address: address as u8, command: command as u8, is_repeat: false };
                        self.reset(0);
                        self.last = Some(c);
                        Some(Ok(c))
                    } else {
                        self.reset(since);
                        Some(Err(DecodeError::ChecksumMismatch))
                    }
                } else {
                    self.reset(since);
                    Some(Err(DecodeError::TimingOutOfRange))
                }
            },
            DecoderState::Idle => None,
        }
    }

    fn reset(&mut self, since: u32)
        ensures
            *final(self) == old(self).restart(since),
    {
        self.state = DecoderState::Idle;
        self.frame_time = 0;
        self.since_valid = since;
    }

    fn next_bit(index: u32, acc: u32) -> (r: DecoderState)
        requires
            index < FRAME_BITS,
        ensures
            r == after_bit(index, acc),
    {
        if index + 1 == FRAME_BITS {
            DecoderState::AwaitingStop { acc }
        } else {
            DecoderState::ReceivingBits { index: index + 1, acc, in_space: false }
        }
    }
}

} // verus!
