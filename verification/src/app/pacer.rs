//! Stream pacer: the smoothing valve between model deltas and the transcript.
//!
//! Deltas land in a backlog instead of writing cells directly; animation ticks
//! release characters at a rate proportional to the backlog, so a burst from the
//! model unspools evenly while a slow trickle still advances visibly every tick.
//! Order and kind are preserved.

use vstd::prelude::*;

use super::prose::style::cap;
use super::transcript::LineKind;
use crate::strs;

verus! {

/// Milliseconds in which a backlog is meant to drain.
pub const TARGET_LATENCY_MS: u64 = 350;

/// Drain floor (chars/s) so a trickle still advances visibly each tick.
pub const MIN_CHARS_PER_SEC: u64 = 120;

/// Drain ceiling (chars/s) so huge bursts never lag meaningfully behind.
pub const MAX_CHARS_PER_SEC: u64 = 6000;

/// One paced streaming piece: the transcript kind it belongs to plus the
/// characters released for it.
#[derive(Clone, Debug, PartialEq, Eq)]
pub struct PacedPiece {
    pub kind: LineKind,
    pub text: String,
}

/// A piece of stream text with its kind, as a mathematical value.
pub struct PieceText {
    pub kind: LineKind,
    pub text: Seq<char>,
}

impl DeepView for PacedPiece {
    type V = PieceText;

    open spec fn deep_view(&self) -> PieceText {
        PieceText { kind: self.kind, text: self.text@ }
    }
}

/// One delta, or what is left of it.
#[derive(Clone, Debug, PartialEq, Eq)]
pub struct Chunk {
    pub kind: LineKind,
    pub chars: Vec<char>,
}

impl DeepView for Chunk {
    type V = PieceText;

    open spec fn deep_view(&self) -> PieceText {
        PieceText { kind: self.kind, text: self.chars@ }
    }
}

/// Backlog of not-yet-displayed stream characters.
#[derive(Debug)]
pub struct StreamPacer {
    pub queue: Vec<Chunk>,
    /// Unspent budget carried across ticks, in millionths of a character.
    pub owed_micro_chars: u64,
}

/// The characters of all pieces.
pub open spec fn backlog(queue: Seq<PieceText>) -> nat
    decreases queue.len(),
{
    if queue.len() == 0 {
        0
    } else {
        backlog(queue.drop_last()) + queue.last().text.len()
    }
}

/// The drain rate: the backlog over the target latency, within floor and
/// ceiling, in characters per second.
pub open spec fn rate(backlog: nat) -> nat {
    let cps = backlog * 1000 / TARGET_LATENCY_MS as nat;
    if cps < MIN_CHARS_PER_SEC {
        MIN_CHARS_PER_SEC as nat
    } else if cps > MAX_CHARS_PER_SEC {
        MAX_CHARS_PER_SEC as nat
    } else {
        cps
    }
}

/// The budget after `ms` milliseconds, in millionths of a character.
pub open spec fn credit(owed: u64, backlog: nat, ms: nat) -> nat {
    let earned = rate(backlog) * ms * 1000;
    owed as nat + (if earned > u64::MAX {
        u64::MAX as nat
    } else {
        earned
    })
}

/// The first `n` characters of the queue, piece by piece.
pub open spec fn released(queue: Seq<PieceText>, n: nat) -> Seq<PieceText>
    decreases queue.len(),
{
    if n == 0 || queue.len() == 0 {
        Seq::empty()
    } else if queue[0].text.len() <= n {
        seq![queue[0]] + released(queue.skip(1), (n - queue[0].text.len()) as nat)
    } else {
        seq![PieceText { kind: queue[0].kind, text: queue[0].text.take(n as int) }]
    }
}

/// What the queue holds after its first `n` characters have left.
pub open spec fn remaining(queue: Seq<PieceText>, n: nat) -> Seq<PieceText>
    decreases queue.len(),
{
    if n == 0 || queue.len() == 0 {
        queue
    } else if queue[0].text.len() <= n {
        remaining(queue.skip(1), (n - queue[0].text.len()) as nat)
    } else {
        seq![PieceText { kind: queue[0].kind, text: queue[0].text.skip(n as int) }] + queue.skip(1)
    }
}

/// Whether a tick of this length on this queue does anything.
pub open spec fn idle_tick(queue: Seq<PieceText>, dt_nanos: u64) -> bool {
    backlog(queue) == 0 || dt_nanos == 0
}

/// The whole characters a tick releases.
pub open spec fn due(queue: Seq<PieceText>, owed: u64, dt_nanos: u64) -> nat {
    credit(owed, backlog(queue), dt_nanos as nat / 1_000_000) / 1_000_000
}

/// One tick: what is released, what stays, and the credit carried on.
pub open spec fn drained(queue: Seq<PieceText>, owed: u64, dt_nanos: u64) -> (
    Seq<PieceText>,
    Seq<PieceText>,
    u64,
) {
    if idle_tick(queue, dt_nanos) {
        (Seq::empty(), queue, 0)
    } else {
        let n = due(queue, owed, dt_nanos);
        let left = remaining(queue, n);
        (
            released(queue, n),
            left,
            if left.len() == 0 {
                0
            } else {
                (credit(owed, backlog(queue), dt_nanos as nat / 1_000_000) % 1_000_000) as u64
            },
        )
    }
}

impl StreamPacer {
    /// The queued deltas, as mathematical values.
    pub open spec fn pieces(&self) -> Seq<PieceText> {
        self.queue.deep_view()
    }

    /// No queued delta is empty.
    pub closed spec fn wf(&self) -> bool {
        forall|i: int| 0 <= i < self.pieces().len() ==> (#[trigger] self.pieces()[i]).text.len() > 0
    }

    pub fn new() -> (pacer: StreamPacer)
        ensures
            pacer.wf(),
            pacer.pieces() == Seq::<PieceText>::empty(),
            pacer.owed_micro_chars == 0,
    {
        let pacer = StreamPacer { queue: Vec::new(), owed_micro_chars: 0 };
        proof {
            assert(pacer.pieces() =~= Seq::<PieceText>::empty());
        }
        pacer
    }

    /// Queues one delta; an empty one leaves no trace.
    pub fn push(&mut self, kind: LineKind, text: &str)
        requires
            old(self).wf(),
        ensures
            final(self).wf(),
            final(self).owed_micro_chars == old(self).owed_micro_chars,
            final(self).pieces() == (if text@.len() == 0 {
                old(self).pieces()
            } else {
                old(self).pieces().push(PieceText { kind, text: text@ })
            }),
    {
        if text.is_empty() {
            return ;
        }
        let chunk = Chunk { kind, chars: strs::chars_of(text) };
        self.queue.push(chunk);
        proof {
            assert(self.pieces() =~= old(self).pieces().push(chunk.deep_view()));
            assert forall|i: int| 0 <= i < self.pieces().len() implies (
            #[trigger] self.pieces()[i]).text.len() > 0 by {
                if i < old(self).pieces().len() {
                    assert(self.pieces()[i] == old(self).pieces()[i]);
                }
            }
        }
    }

    pub fn is_empty(&self) -> (yes: bool)
        ensures
            yes == (self.pieces().len() == 0),
    {
        self.queue.len() == 0
    }

    /// Total buffered characters — the rate controller's input.
    pub fn backlog_chars(&self) -> (count: usize)
        ensures
            count == cap(backlog(self.pieces())),
    {
        let ghost all = self.pieces();
        let mut count: usize = 0;
        let mut i: usize = 0;
        while i < self.queue.len()
            invariant
                i <= self.queue.len(),
                all == self.pieces(),
                count == cap(backlog(all.take(i as int))),
            decreases self.queue.len() - i,
        {
            proof {
                assert(all.take(i as int + 1).drop_last() =~= all.take(i as int));
            }
            count = count.saturating_add(self.queue[i].chars.len());
            i += 1;
        }
        proof {
            assert(all.take(i as int) =~= all);
        }
        count
    }

    /// Releases characters due after `dt_nanos` of pacing, preserving order and
    /// splitting only the head chunk. Empty result means nothing to paint.
    pub fn drain(&mut self, dt_nanos: u64) -> (pieces: Vec<PacedPiece>)
        requires
            old(self).wf(),
        ensures
            final(self).wf(),
            (pieces.deep_view(), final(self).pieces(), final(self).owed_micro_chars) == drained(
                old(self).pieces(),
                old(self).owed_micro_chars,
                dt_nanos,
            ),
    {
        let count = self.backlog_chars();
        let ghost all = self.pieces();
        let mut pieces: Vec<PacedPiece> = Vec::new();
        if count == 0 || dt_nanos == 0 {
            self.owed_micro_chars = 0;
            proof {
                assert(pieces.deep_view() =~= Seq::<PieceText>::empty());
            }
            return pieces;
        }
        let ms: u64 = dt_nanos / 1_000_000;
        let cps: u64 = if count >= 2100 {
            MAX_CHARS_PER_SEC
        } else {
            let raw: u64 = count as u64 * 1000 / TARGET_LATENCY_MS;
            if raw < MIN_CHARS_PER_SEC {
                MIN_CHARS_PER_SEC
            } else {
                raw
            }
        };
        proof {
            assert(cps == rate(backlog(all)));
        }
        proof {
            assert(0 <= cps * ms <= 6000 * u64::MAX) by (nonlinear_arith)
                requires
                    0 <= cps <= 6000,
                    0 <= ms <= u64::MAX,
            ;
        }
        let earned: u128 = cps as u128 * ms as u128 * 1000;
        let budget: u128 = self.owed_micro_chars as u128 + (if earned > u64::MAX as u128 {
            u64::MAX as u128
        } else {
            earned
        });
        proof {
            assert(earned == rate(backlog(all)) * (dt_nanos as nat / 1_000_000) * 1000);
            assert(budget == credit(
                self.owed_micro_chars,
                backlog(all),
                dt_nanos as nat / 1_000_000,
            ));
        }
        let n: u64 = (budget / 1_000_000) as u64;
        let mut left: u64 = n;
        let mut i: usize = 0;
        proof {
            assert(all.skip(0) =~= all);
            assert(pieces.deep_view() + released(all, n as nat) =~= released(all, n as nat));
        }
        while left > 0 && i < self.queue.len() && self.queue[i].chars.len() as u64 <= left
            invariant
                i <= self.queue.len(),
                left <= n,
                all == self.pieces(),
                *self == *old(self),
                pieces.deep_view() + released(all.skip(i as int), left as nat) == released(
                    all,
                    n as nat,
                ),
                remaining(all.skip(i as int), left as nat) == remaining(all, n as nat),
            decreases self.queue.len() - i,
        {
            let ghost before = pieces.deep_view();
            let len = self.queue[i].chars.len();
            let text = strs::string_of(&self.queue[i].chars, 0, len);
            let piece = PacedPiece { kind: self.queue[i].kind, text };
            pieces.push(piece);
            proof {
                assert(all.skip(i as int)[0] == all[i as int]);
                assert(all.skip(i as int).skip(1) =~= all.skip(i as int + 1));
                assert(text@ =~= self.queue@[i as int].chars@);
                assert(piece.deep_view() == all[i as int]);
                assert(pieces.deep_view() =~= before.push(piece.deep_view()));
                let rest = released(all.skip(i as int + 1), (left - len) as nat);
                assert(before + (seq![all[i as int]] + rest) =~= pieces.deep_view() + rest);
            }
            left -= len as u64;
            i += 1;
        }
        if left > 0 && i < self.queue.len() {
            let ghost before = pieces.deep_view();
            let cut = left as usize;
            let text = strs::string_of(&self.queue[i].chars, 0, cut);
            let kind = self.queue[i].kind;
            let piece = PacedPiece { kind, text };
            pieces.push(piece);
            let mut rest: Vec<char> = Vec::new();
            let len = self.queue[i].chars.len();
            let mut k: usize = cut;
            while k < len
                invariant
                    cut <= k <= len,
                    i < self.queue.len(),
                    len == self.queue@[i as int].chars@.len(),
                    *self == *old(self),
                    rest@ == self.queue@[i as int].chars@.subrange(cut as int, k as int),
                decreases len - k,
            {
                rest.push(self.queue[i].chars[k]);
                proof {
                    assert(rest@ =~= self.queue@[i as int].chars@.subrange(
                        cut as int,
                        k as int + 1,
                    ));
                }
                k += 1;
            }
            proof {
                assert(all.skip(i as int)[0] == all[i as int]);
                assert(text@ =~= all[i as int].text.take(left as int));
                assert(rest@ =~= all[i as int].text.skip(left as int));
                assert(pieces.deep_view() =~= before.push(piece.deep_view()));
            }
            self.queue.set(i, Chunk { kind, chars: rest });
        }
        let kept = self.queue.split_off(i);
        self.queue = kept;
        proof {
            assert(pieces.deep_view() =~= released(all, n as nat));
            assert(self.pieces() =~= remaining(all, n as nat));
            remaining_is_wf(all, n as nat);
        }
        self.owed_micro_chars = if self.queue.len() == 0 {
            0
        } else {
            (budget % 1_000_000) as u64
        };
        pieces
    }

    /// Emits everything immediately in queue order.
    pub fn flush(&mut self) -> (pieces: Vec<PacedPiece>)
        ensures
            final(self).wf(),
            pieces.deep_view() == old(self).pieces(),
            final(self).pieces() == Seq::<PieceText>::empty(),
            final(self).owed_micro_chars == 0,
    {
        let ghost all = self.pieces();
        let mut pieces: Vec<PacedPiece> = Vec::new();
        let mut i: usize = 0;
        while i < self.queue.len()
            invariant
                i <= self.queue.len(),
                all == self.pieces(),
                pieces.len() == i,
                forall|k: int| 0 <= k < i ==> (#[trigger] pieces@[k]).deep_view() == all[k],
            decreases self.queue.len() - i,
        {
            let len = self.queue[i].chars.len();
            let text = strs::string_of(&self.queue[i].chars, 0, len);
            proof {
                assert(text@ =~= self.queue@[i as int].chars@);
            }
            pieces.push(PacedPiece { kind: self.queue[i].kind, text });
            i += 1;
        }
        self.clear();
        proof {
            assert(pieces.deep_view() =~= all);
        }
        pieces
    }

    /// Drops the backlog without emitting.
    pub fn clear(&mut self)
        ensures
            final(self).wf(),
            final(self).pieces() == Seq::<PieceText>::empty(),
            final(self).owed_micro_chars == 0,
    {
        self.queue = Vec::new();
        self.owed_micro_chars = 0;
        proof {
            assert(self.pieces() =~= Seq::<PieceText>::empty());
        }
    }
}

impl Default for StreamPacer {
    fn default() -> (pacer: StreamPacer)
        ensures
            pacer.wf(),
            pacer.pieces() == Seq::<PieceText>::empty(),
            pacer.owed_micro_chars == 0,
    {
        StreamPacer::new()
    }
}

proof fn remaining_is_wf(queue: Seq<PieceText>, n: nat)
    requires
        forall|i: int| 0 <= i < queue.len() ==> (#[trigger] queue[i]).text.len() > 0,
    ensures
        forall|i: int|
            0 <= i < remaining(queue, n).len() ==> (#[trigger] remaining(queue, n)[i]).text.len()
                > 0,
    decreases queue.len(),
{
    if n == 0 || queue.len() == 0 {
    } else if queue[0].text.len() <= n {
        assert forall|i: int| 0 <= i < queue.skip(1).len() implies (
        #[trigger] queue.skip(1)[i]).text.len() > 0 by {
            assert(queue.skip(1)[i] == queue[i + 1]);
        }
        remaining_is_wf(queue.skip(1), (n - queue[0].text.len()) as nat);
    } else {
        let rest = remaining(queue, n);
        assert forall|i: int| 0 <= i < rest.len() implies (#[trigger] rest[i]).text.len() > 0 by {
            if i > 0 {
                assert(rest[i] == queue[i]);
            }
        }
    }
}

// ---------------------------------------------------------------------------
// Laws
// ---------------------------------------------------------------------------

/// Every character of one piece with its kind.
pub open spec fn inked(piece: PieceText) -> Seq<(LineKind, char)> {
    Seq::new(piece.text.len(), |i: int| (piece.kind, piece.text[i]))
}

/// Every character of the queue with its kind, in order.
pub open spec fn stream(queue: Seq<PieceText>) -> Seq<(LineKind, char)>
    decreases queue.len(),
{
    if queue.len() == 0 {
        Seq::empty()
    } else {
        inked(queue[0]) + stream(queue.skip(1))
    }
}

proof fn inked_split(piece: PieceText, cut: int)
    requires
        0 <= cut <= piece.text.len(),
    ensures
        inked(PieceText { kind: piece.kind, text: piece.text.take(cut) }) + inked(
            PieceText { kind: piece.kind, text: piece.text.skip(cut) },
        ) == inked(piece),
{
    let front = PieceText { kind: piece.kind, text: piece.text.take(cut) };
    let back = PieceText { kind: piece.kind, text: piece.text.skip(cut) };
    let whole = inked(front) + inked(back);
    assert forall|i: int| 0 <= i < piece.text.len() implies whole[i] == inked(piece)[i] by {
        if i < cut {
            assert(front.text[i] == piece.text[i]);
            assert(whole[i] == inked(front)[i]);
        } else {
            assert(back.text[i - cut] == piece.text[i]);
            assert(whole[i] == inked(back)[i - cut]);
        }
    }
    assert(whole =~= inked(piece));
}

/// Pacing loses nothing, duplicates nothing and keeps order and kind: what a
/// tick releases followed by what stays is what was queued.
pub proof fn pacing_preserves_the_stream(queue: Seq<PieceText>, n: nat)
    ensures
        stream(released(queue, n)) + stream(remaining(queue, n)) == stream(queue),
    decreases queue.len(),
{
    if n == 0 || queue.len() == 0 {
        assert(stream(released(queue, n)) + stream(remaining(queue, n)) =~= stream(queue));
    } else {
        let head = queue[0];
        if head.text.len() <= n {
            let rest = (n - head.text.len()) as nat;
            pacing_preserves_the_stream(queue.skip(1), rest);
            let out = released(queue, n);
            assert(out[0] == head);
            assert(out.skip(1) =~= released(queue.skip(1), rest));
            assert(stream(out) + stream(remaining(queue, n)) =~= inked(head) + (stream(
                released(queue.skip(1), rest),
            ) + stream(remaining(queue.skip(1), rest))));
        } else {
            let cut = n as int;
            let front = PieceText { kind: head.kind, text: head.text.take(cut) };
            let back = PieceText { kind: head.kind, text: head.text.skip(cut) };
            let out = released(queue, n);
            let rest = remaining(queue, n);
            assert(out[0] == front && out.len() == 1);
            assert(out.skip(1) =~= Seq::<PieceText>::empty());
            assert(rest[0] == back);
            assert(rest.skip(1) =~= queue.skip(1));
            reveal_with_fuel(stream, 2);
            inked_split(head, cut);
            assert(stream(out) =~= inked(front));
            assert(stream(out) + stream(rest) =~= stream(queue));
        }
    }
}

/// A tick releases exactly the characters that are due, or all that are left.
pub proof fn release_counts_characters(queue: Seq<PieceText>, n: nat)
    ensures
        stream(released(queue, n)).len() == (if n < stream(queue).len() {
            n
        } else {
            stream(queue).len()
        }),
    decreases queue.len(),
{
    if n == 0 || queue.len() == 0 {
    } else {
        let head = queue[0];
        let out = released(queue, n);
        if head.text.len() <= n {
            release_counts_characters(queue.skip(1), (n - head.text.len()) as nat);
            assert(out[0] == head);
            assert(out.skip(1) =~= released(queue.skip(1), (n - head.text.len()) as nat));
        } else {
            assert(out.skip(1) =~= Seq::<PieceText>::empty());
            reveal_with_fuel(stream, 2);
            assert(stream(out) =~= inked(out[0]));
        }
    }
}

/// The rate stays between floor and ceiling, and grows with the backlog.
pub proof fn rate_is_bounded_and_monotone(a: nat, b: nat)
    requires
        a <= b,
    ensures
        MIN_CHARS_PER_SEC <= rate(a) <= MAX_CHARS_PER_SEC,
        rate(a) <= rate(b),
{
    assert(a * 1000 / 350 <= b * 1000 / 350) by (nonlinear_arith)
        requires
            a <= b,
    ;
}

/// A backlog drains in about a third of a second: between the slowest and the
/// fastest pace the rate is what takes it there in three hundred and fifty
/// milliseconds, rounded down by less than one character a second.
pub proof fn a_backlog_drains_in_time(backlog: nat)
    requires
        42 <= backlog <= 2100,
    ensures
        rate(backlog) * 350 <= backlog * 1000 < (rate(backlog) + 1) * 350,
{
}

} // verus!
