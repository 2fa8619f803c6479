use vstd::prelude::*;
use vstd::arithmetic::div_mod::{lemma_mod_breakdown, lemma_small_mod};
use vstd::arithmetic::power2::{lemma2_to64, lemma_pow2_pos, lemma_pow2_unfold, pow2};
use crate::decoder::{
    checksum_ok, command_of, within, CommandWord, DecodeError, Decoder, DecoderState, Output, BIT_MARK_MAX, BIT_MARK_MIN, HEADER_MARK_MAX, HEADER_MARK_MIN,
    HEADER_SPACE_MAX, HEADER_SPACE_MIN, ONE_SPACE_MAX, ONE_SPACE_MIN, REPEAT_SPACE_MAX,
    REPEAT_SPACE_MIN, ZERO_SPACE_MAX, ZERO_SPACE_MIN,
};
use crate::timing::{clamp_u32, Pulse};

verus! {

/// The decoder after taking the intervals `ps` in order.
pub open spec fn run(d: Decoder, ps: Seq<Pulse>) -> Decoder
    decreases ps.len(),
{
    if ps.len() == 0 {
        d
    } else {
        run(d, ps.drop_last()).step(ps.last()).0
    }
}

/// What the decoder produced for each of the intervals `ps`.
pub open spec fn outputs(d: Decoder, ps: Seq<Pulse>) -> Seq<Output>
    decreases ps.len(),
{
    if ps.len() == 0 {
        Seq::empty()
    } else {
        outputs(d, ps.drop_last()).push(run(d, ps.drop_last()).step(ps.last()).1)
    }
}

/// Bit `i` of `word`.
pub open spec fn bit_of(word: u32, i: nat) -> bool {
    (word as nat / pow2(i)) % 2 == 1
}

/// Data bit `i` of a frame: a bit mark, then the space that `word` calls for.
pub open spec fn bit_pair_ok(ps: Seq<Pulse>, word: u32, i: int) -> bool {
    let m = ps[2 + 2 * i];
    let s = ps[3 + 2 * i];
    &&& m.mark && within(m.duration, BIT_MARK_MIN, BIT_MARK_MAX)
    &&& !s.mark
    &&& if bit_of(word, i as nat) {
        within(s.duration, ONE_SPACE_MIN, ONE_SPACE_MAX)
    } else {
        within(s.duration, ZERO_SPACE_MIN, ZERO_SPACE_MAX)
    }
}

/// `ps` is a complete frame carrying `word`: header mark and space, 32 data
/// bits least significant first, stop mark, each interval within its band.
pub open spec fn is_frame_of(ps: Seq<Pulse>, word: u32) -> bool {
    &&& ps.len() == 67
    &&& ps[0].mark && within(ps[0].duration, HEADER_MARK_MIN, HEADER_MARK_MAX)
    &&& !ps[1].mark && within(ps[1].duration, HEADER_SPACE_MIN, HEADER_SPACE_MAX)
    &&& forall|i: int| 0 <= i < 32 ==> #[trigger] bit_pair_ok(ps, word, i)
    &&& ps[66].mark && within(ps[66].duration, BIT_MARK_MIN, BIT_MARK_MAX)
}

/// `ps` is a repeat frame: header mark, repeat space, stop mark.
pub open spec fn is_repeat_frame(ps: Seq<Pulse>) -> bool {
    &&& ps.len() == 3
    &&& ps[0].mark && within(ps[0].duration, HEADER_MARK_MIN, HEADER_MARK_MAX)
    &&& !ps[1].mark && within(ps[1].duration, REPEAT_SPACE_MIN, REPEAT_SPACE_MAX)
    &&& ps[2].mark && within(ps[2].duration, BIT_MARK_MIN, BIT_MARK_MAX)
}

pub open spec fn nothing(n: nat) -> Seq<Output> {
    Seq::new(n, |i: int| None)
}

proof fn lemma_run_push(d: Decoder, ps: Seq<Pulse>, n: int)
    requires
        0 <= n < ps.len(),
    ensures
        run(d, ps.take(n + 1)) == run(d, ps.take(n)).step(ps[n]).0,
        outputs(d, ps.take(n + 1)) == outputs(d, ps.take(n)).push(
            run(d, ps.take(n)).step(ps[n]).1,
        ),
{
    assert(ps.take(n + 1).drop_last() =~= ps.take(n));
}

proof fn lemma_low_bits(word: u32, k: nat)
    ensures
        word as nat % pow2(k + 1) == word as nat % pow2(k) + if bit_of(word, k) {
            pow2(k)
        } else {
            0
        },
        word as nat % pow2(k) < pow2(k),
{
    lemma_pow2_pos(k);
    lemma_pow2_unfold(k + 1);
    lemma_mod_breakdown(word as int, pow2(k) as int, 2);
    assert(pow2(k) * 2 == pow2(k + 1));
}

/// After the header and `k` data bits of a frame of `word`, the decoder holds
/// the low `k` bits of `word`, and has produced nothing.
proof fn lemma_frame_bits(d: Decoder, ps: Seq<Pulse>, word: u32, k: int)
    requires
        d.state == DecoderState::Idle,
        is_frame_of(ps, word),
        0 <= k <= 32,
    ensures
        ({
            let r = run(d, ps.take(2 + 2 * k));
            &&& r.state == if k < 32 {
                DecoderState::ReceivingBits {
                    index: k as u32,
                    acc: (word as nat % pow2(k as nat)) as u32,
                    in_space: false,
                }
            } else {
                DecoderState::AwaitingStop { acc: word }
            }
            &&& r.frame_time <= 1620 + 275 * k
            &&& r.last == d.last
            &&& r.repeat_window == d.repeat_window
        }),
        outputs(d, ps.take(2 + 2 * k)) == nothing((2 + 2 * k) as nat),
    decreases k,
{
    if k == 0 {
        lemma2_to64();
        assert(ps.take(0) =~= Seq::<Pulse>::empty());
        lemma_run_push(d, ps, 0);
        lemma_run_push(d, ps, 1);
        assert(outputs(d, ps.take(2)) =~= nothing(2));
    } else {
        let j = k - 1;
        lemma_frame_bits(d, ps, word, j);
        assert(bit_pair_ok(ps, word, j));
        lemma_run_push(d, ps, 2 + 2 * j);
        lemma_run_push(d, ps, 3 + 2 * j);
        lemma_bit_steps(run(d, ps.take(2 + 2 * j)), ps[2 + 2 * j], ps[3 + 2 * j], word, j as nat);
        assert(outputs(d, ps.take(2 + 2 * k)) =~= nothing((2 + 2 * k) as nat));
    }
}

/// One data bit, mark then space, taken in the middle of a frame.
proof fn lemma_bit_steps(a: Decoder, m: Pulse, s: Pulse, word: u32, j: nat)
    requires
        j < 32,
        a.state == (DecoderState::ReceivingBits {
            index: j as u32,
            acc: (word as nat % pow2(j)) as u32,
            in_space: false,
        }),
        a.frame_time <= 1620 + 275 * j,
        m.mark && within(m.duration, BIT_MARK_MIN, BIT_MARK_MAX),
        !s.mark,
        if bit_of(word, j) {
            within(s.duration, ONE_SPACE_MIN, ONE_SPACE_MAX)
        } else {
            within(s.duration, ZERO_SPACE_MIN, ZERO_SPACE_MAX)
        },
    ensures
        ({
            let b = a.step(m);
            let c = b.0.step(s);
            &&& b.1.is_none() && c.1.is_none()
            &&& c.0.state == if j + 1 < 32 {
                DecoderState::ReceivingBits {
                    index: (j + 1) as u32,
                    acc: (word as nat % pow2(j + 1)) as u32,
                    in_space: false,
                }
            } else {
                DecoderState::AwaitingStop { acc: word }
            }
            &&& c.0.frame_time <= 1620 + 275 * (j + 1)
            &&& c.0.last == a.last
            &&& c.0.repeat_window == a.repeat_window
        }),
{
    lemma2_to64();
    lemma_low_bits(word, j);
    if j + 1 < 32 {
        vstd::arithmetic::power2::lemma_pow2_strictly_increases(j + 1, 32);
    } else {
        lemma_small_mod(word as nat, pow2(32));
    }
    let b = a.step(m).0;
    assert(b.state == DecoderState::ReceivingBits {
        index: j as u32,
        acc: (word as nat % pow2(j)) as u32,
        in_space: true,
    });
}

/// Taking `a` then `b` is taking `a + b`.
pub proof fn lemma_run_concat(d: Decoder, a: Seq<Pulse>, b: Seq<Pulse>)
    ensures
        run(d, a + b) == run(run(d, a), b),
        outputs(d, a + b) == outputs(d, a) + outputs(run(d, a), b),
    decreases b.len(),
{
    if b.len() == 0 {
        assert(a + b =~= a);
        assert(outputs(d, a) + outputs(run(d, a), b) =~= outputs(d, a));
    } else {
        lemma_run_concat(d, a, b.drop_last());
        assert((a + b).drop_last() =~= a + b.drop_last());
        assert(outputs(d, a + b) =~= outputs(d, a) + outputs(run(d, a), b));
    }
}

/// The frame up to its stop mark, and the stop mark's step.
proof fn lemma_frame_to_stop(d: Decoder, ps: Seq<Pulse>, word: u32)
    requires
        d.state == DecoderState::Idle,
        is_frame_of(ps, word),
    ensures
        run(d, ps) == run(d, ps.take(66)).step(ps[66]).0,
        outputs(d, ps) == nothing(66).push(run(d, ps.take(66)).step(ps[66]).1),
        run(d, ps.take(66)).state == (DecoderState::AwaitingStop { acc: word }),
        run(d, ps.take(66)).frame_time <= 1620 + 275 * 32,
        run(d, ps.take(66)).last == d.last,
        run(d, ps.take(66)).repeat_window == d.repeat_window,
{
    lemma_frame_bits(d, ps, word, 32);
    lemma_run_push(d, ps, 66);
    assert(ps.take(67) =~= ps);
}

/// Every complete frame whose inverted bytes complement the address and the
/// command decodes, on its stop mark and not before, to that address and
/// command, not as a repeat, and leaves the decoder idle.
pub proof fn lemma_valid_frame_decodes(d: Decoder, ps: Seq<Pulse>, word: u32)
    requires
        d.state == DecoderState::Idle,
        is_frame_of(ps, word),
        checksum_ok(word),
    ensures
        outputs(d, ps) == nothing(66).push(Some(Ok(command_of(word)))),
        command_of(word).is_repeat == false,
        run(d, ps).state == DecoderState::Idle,
        run(d, ps).last == Some(command_of(word)),
        run(d, ps).since_valid == 0,
        run(d, ps).repeat_window == d.repeat_window,
{
    lemma_frame_to_stop(d, ps, word);
}

/// Every complete frame whose inverted address or inverted command byte does
/// not complement its byte is dropped as a checksum mismatch on its stop mark,
/// and the decoder is idle again: a valid frame right after it decodes.
pub proof fn lemma_bad_checksum_rejected(
    d: Decoder,
    ps: Seq<Pulse>,
    word: u32,
    next: Seq<Pulse>,
    next_word: u32,
)
    requires
        d.state == DecoderState::Idle,
        is_frame_of(ps, word),
        !checksum_ok(word),
        is_frame_of(next, next_word),
        checksum_ok(next_word),
    ensures
        outputs(d, ps) == nothing(66).push(Some(Err(DecodeError::ChecksumMismatch))),
        run(d, ps).state == DecoderState::Idle,
        run(d, ps).last == d.last,
        outputs(d, ps + next) == nothing(66).push(Some(Err(DecodeError::ChecksumMismatch))) + nothing(
            66,
        ).push(Some(Ok(command_of(next_word)))),
{
    lemma_frame_to_stop(d, ps, word);
    lemma_run_concat(d, ps, next);
    lemma_valid_frame_decodes(run(d, ps), next, next_word);
}

/// Total length of the intervals `ps`.
pub open spec fn total_duration(ps: Seq<Pulse>) -> int
    decreases ps.len(),
{
    if ps.len() == 0 {
        0
    } else {
        total_duration(ps.drop_last()) + ps.last().duration
    }
}

proof fn lemma_clamp_add(x: int, y: int)
    requires
        x >= 0,
        y >= 0,
    ensures
        clamp_u32(clamp_u32(x) + y) == clamp_u32(x + y),
{
}

/// Spaces between frames leave an idle decoder idle, and count towards the
/// time since the last valid frame.
proof fn lemma_gap(d: Decoder, gap: Seq<Pulse>)
    requires
        d.state == DecoderState::Idle,
        forall|i: int| 0 <= i < gap.len() ==> !(#[trigger] gap[i]).mark,
    ensures
        run(d, gap) == (Decoder { since_valid: clamp_u32(d.since_valid + total_duration(gap)), ..d }),
        outputs(d, gap) == nothing(gap.len()),
        total_duration(gap) >= 0,
    decreases gap.len(),
{
    if gap.len() > 0 {
        lemma_gap(d, gap.drop_last());
        lemma_clamp_add(d.since_valid + total_duration(gap.drop_last()), gap.last().duration as int);
        assert(outputs(d, gap) =~= nothing(gap.len()));
    } else {
        assert(outputs(d, gap) =~= nothing(0));
    }
}

/// A repeat frame that follows a valid frame, after spaces `gap`, repeats
/// that frame's address and command, marked as a repeat, when the time since
/// the valid frame (through the repeat space) is within the repeat window; and
/// is dropped as out of window otherwise. Either way the decoder is idle again.
#[verifier::rlimit(30)]
pub proof fn lemma_repeat_frame(
    d: Decoder,
    ps: Seq<Pulse>,
    word: u32,
    gap: Seq<Pulse>,
    rp: Seq<Pulse>,
)
    requires
        d.state == DecoderState::Idle,
        is_frame_of(ps, word),
        checksum_ok(word),
        forall|i: int| 0 <= i < gap.len() ==> !(#[trigger] gap[i]).mark,
        is_repeat_frame(rp),
    ensures
        ({
            let elapsed = clamp_u32(total_duration(gap) + rp[0].duration + rp[1].duration);
            let all = ps + gap + rp;
            let expected: Output = if elapsed <= d.repeat_window {
                Some(
                    Ok(
                        CommandWord {
                            address: command_of(word).address,
                            command: command_of(word).command,
                            is_repeat: true,
                        },
                    ),
                )
            } else {
                Some(Err(DecodeError::RepeatOutOfWindow))
            };
            &&& outputs(d, all).len() == 67 + gap.len() + 3
            &&& outputs(d, all)[66] == Some(Ok::<CommandWord, DecodeError>(command_of(word)))
            &&& outputs(d, all)[68 + gap.len() as int] == expected
            &&& forall|i: int|
                0 <= i < outputs(d, all).len() && i != 66 && i != 68 + gap.len() as int
                    ==> #[trigger] outputs(d, all)[i] == None::<Result<CommandWord, DecodeError>>
            &&& run(d, all).state == DecoderState::Idle
        }),
{
    lemma_valid_frame_decodes(d, ps, word);
    let a = run(d, ps);
    lemma_run_concat(d, ps, gap);
    lemma_gap(a, gap);
    let g = run(a, gap);
    lemma_run_concat(d, ps + gap, rp);
    lemma_run_push(g, rp, 0);
    lemma_run_push(g, rp, 1);
    lemma_run_push(g, rp, 2);
    assert(rp.take(0) =~= Seq::<Pulse>::empty());
    assert(rp.take(3) =~= rp);
    let t = total_duration(gap);
    lemma_clamp_add(t, rp[0].duration as int);
    lemma_clamp_add(t + rp[0].duration, rp[1].duration as int);
    let g1 = g.step(rp[0]).0;
    assert(g1.state == DecoderState::AwaitingHeaderSpace);
    assert(g1.since_valid == clamp_u32(t + rp[0].duration));
    assert(g1.last == Some(command_of(word)));
    let all = ps + gap + rp;
    assert(outputs(d, all) == outputs(d, ps) + outputs(a, gap) + outputs(g, rp));
}

} // verus!
