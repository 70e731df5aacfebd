//! Frame synchronizer: a stateful scanner that turns a raw byte stream into
//! delimited candidate frames.
//!
//! The scanner has two states. While SCANNING it fills a 4-byte alignment
//! window; a window that matches the START marker opens a frame, any other
//! full window is discarded and the window restarts. While CAPTURING every
//! byte is appended to the frame buffer and each full 4-byte window is
//! compared against the STOP marker; on a match the candidate is finalized:
//! the leading residual byte of the START marker and the trailing STOP marker
//! are trimmed away, provided the buffer is longer than 8 bytes — otherwise
//! the scanner silently keeps capturing (a deliberate false-positive
//! rejection, not an error). State persists across input chunks, so a frame
//! may span several reads.

use vstd::prelude::*;
use crate::message::be_value;

verus! {

/// The START marker, read as a big-endian 32-bit word.
pub open spec fn start_word() -> nat {
    0x2F2F_2F2F
}

/// The STOP marker, read as a big-endian 32-bit word.
pub open spec fn stop_word() -> nat {
    0x5C5C_5C5C
}

/// A full alignment window holding the START marker.
pub open spec fn is_start_window(w: Seq<u8>) -> bool {
    w.len() == 4 && be_value(w) == start_word()
}

/// A full alignment window holding the STOP marker.
pub open spec fn is_stop_window(w: Seq<u8>) -> bool {
    w.len() == 4 && be_value(w) == stop_word()
}

/// Mathematical state of the synchronizer: whether it is capturing, the
/// partial alignment window, and the accumulating frame buffer.
pub struct SyncModel {
    pub capturing: bool,
    pub window: Seq<u8>,
    pub frame: Seq<u8>,
}

/// The state the synchronizer starts a session in: scanning, with an empty
/// window and an empty frame buffer.
pub open spec fn initial_sync() -> SyncModel {
    SyncModel { capturing: false, window: Seq::<u8>::empty(), frame: Seq::<u8>::empty() }
}

/// One byte of input: the next state and the candidate frame finalized by
/// this byte, if any.
///
/// A window that reached 4 bytes without matching restarts before the byte
/// enters; this makes scanning examine consecutive 4-byte alignment windows.
/// The byte that completes the START marker is the one residual marker byte
/// that enters the frame buffer, and is trimmed away again on finalization.
pub open spec fn sync_step(s: SyncModel, b: u8) -> (SyncModel, Option<Seq<u8>>) {
    let w0 = if s.window.len() == 4 {
        Seq::<u8>::empty()
    } else {
        s.window
    };
    let w1 = w0.push(b);
    if !s.capturing {
        if w1.len() == 4 {
            if is_start_window(w1) {
                (
                    SyncModel { capturing: true, window: Seq::<u8>::empty(), frame: s.frame.push(b) },
                    None::<Seq<u8>>,
                )
            } else {
                (SyncModel { capturing: false, window: Seq::<u8>::empty(), frame: s.frame }, None)
            }
        } else {
            (SyncModel { capturing: false, window: w1, frame: s.frame }, None)
        }
    } else {
        let f1 = s.frame.push(b);
        if w1.len() == 4 {
            if is_stop_window(w1) {
                let f2 = f1.drop_first();
                if f2.len() > 8 {
                    (
                        SyncModel {
                            capturing: false,
                            window: Seq::<u8>::empty(),
                            frame: Seq::<u8>::empty(),
                        },
                        Some(f2.take(f2.len() - 4)),
                    )
                } else {
                    (SyncModel { capturing: true, window: w1, frame: f2 }, None)
                }
            } else {
                (SyncModel { capturing: true, window: Seq::<u8>::empty(), frame: f1 }, None)
            }
        } else {
            (SyncModel { capturing: true, window: w1, frame: f1 }, None)
        }
    }
}

/// The state after feeding `bytes`, byte by byte, from state `s`.
pub open spec fn sync_run(s: SyncModel, bytes: Seq<u8>) -> SyncModel
    decreases bytes.len(),
{
    if bytes.len() == 0 {
        s
    } else {
        sync_run(sync_step(s, bytes[0]).0, bytes.drop_first())
    }
}

/// The candidate frames finalized while feeding `bytes` from state `s`, in
/// order of finalization.
pub open spec fn sync_emits(s: SyncModel, bytes: Seq<u8>) -> Seq<Seq<u8>>
    decreases bytes.len(),
{
    if bytes.len() == 0 {
        Seq::<Seq<u8>>::empty()
    } else {
        let first = match sync_step(s, bytes[0]).1 {
            Some(f) => seq![f],
            None => Seq::<Seq<u8>>::empty(),
        };
        first + sync_emits(sync_step(s, bytes[0]).0, bytes.drop_first())
    }
}

/// The START marker's bytes in arrival order.
pub open spec fn start_marker() -> Seq<u8> {
    seq![0x2Fu8, 0x2Fu8, 0x2Fu8, 0x2Fu8]
}

/// The STOP marker's bytes in arrival order.
pub open spec fn stop_marker() -> Seq<u8> {
    seq![0x5Cu8, 0x5Cu8, 0x5Cu8, 0x5Cu8]
}

/// No 4-byte alignment window of `t` reads as the word `word`: the scanner
/// restarts its window every 4 bytes, so only windows at offsets divisible
/// by 4 matter.
pub open spec fn no_aligned_word(t: Seq<u8>, word: nat) -> bool
    decreases t.len(),
{
    if t.len() < 4 {
        true
    } else {
        be_value(t.take(4)) != word && no_aligned_word(t.skip(4), word)
    }
}

/// The big-endian value of a 4-byte string, written out byte by byte.
proof fn lemma_be_value4(s: Seq<u8>)
    requires
        s.len() == 4,
    ensures
        be_value(s) == s[0] * 0x100_0000 + s[1] * 0x1_0000 + s[2] * 0x100 + s[3],
{
    let s3 = s.drop_last();
    let s2 = s3.drop_last();
    let s1 = s2.drop_last();
    let s0 = s1.drop_last();
    assert(s0 =~= Seq::<u8>::empty());
    assert(be_value(s0) == 0);
    assert(s1.last() == s[0]);
    assert(s2.last() == s[1]);
    assert(s3.last() == s[2]);
    assert(s.last() == s[3]);
    assert(be_value(s1) == s[0]);
    assert(be_value(s2) == s[0] * 0x100 + s[1]);
    assert(be_value(s3) == s[0] * 0x1_0000 + s[1] * 0x100 + s[2]);
}

/// The START marker's bytes read as the START word, not as the STOP word.
proof fn lemma_marker_words()
    ensures
        is_start_window(start_marker()),
        !is_stop_window(start_marker()),
        is_stop_window(stop_marker()),
        !is_start_window(stop_marker()),
{
    lemma_be_value4(start_marker());
    lemma_be_value4(stop_marker());
}

/// Feeding a concatenation is feeding its parts in turn: the state threads
/// through, and the emissions concatenate.
pub proof fn lemma_sync_run_append(s: SyncModel, a: Seq<u8>, b: Seq<u8>)
    ensures
        sync_run(s, a + b) == sync_run(sync_run(s, a), b),
        sync_emits(s, a + b) =~= sync_emits(s, a) + sync_emits(sync_run(s, a), b),
    decreases a.len(),
{
    if a.len() == 0 {
        assert(a + b =~= b);
        assert(sync_run(s, a) == s);
        assert(sync_emits(s, a) =~= Seq::<Seq<u8>>::empty());
    } else {
        assert((a + b)[0] == a[0]);
        assert((a + b).drop_first() =~= a.drop_first() + b);
        lemma_sync_run_append(sync_step(s, a[0]).0, a.drop_first(), b);
        assert(sync_run(s, a + b) == sync_run(
            sync_step(s, a[0]).0,
            a.drop_first() + b,
        ));
        assert(sync_run(s, a) == sync_run(sync_step(s, a[0]).0, a.drop_first()));
        assert(sync_emits(s, a + b) == (match sync_step(s, a[0]).1 {
            Some(f) => seq![f],
            None => Seq::<Seq<u8>>::empty(),
        }) + sync_emits(sync_step(s, a[0]).0, a.drop_first() + b));
        assert(sync_emits(s, a) == (match sync_step(s, a[0]).1 {
            Some(f) => seq![f],
            None => Seq::<Seq<u8>>::empty(),
        }) + sync_emits(sync_step(s, a[0]).0, a.drop_first()));
    }
}

/// While scanning with an empty window, a 4-byte block that is not the
/// START marker is examined and discarded whole: the state is unchanged
/// and nothing is emitted.
proof fn lemma_scan_block(s: SyncModel, blk: Seq<u8>)
    requires
        !s.capturing,
        s.window == Seq::<u8>::empty(),
        blk.len() == 4,
        !is_start_window(blk),
    ensures
        sync_run(s, blk) == (SyncModel {
            capturing: false,
            window: Seq::<u8>::empty(),
            frame: s.frame,
        }),
        sync_emits(s, blk) =~= Seq::<Seq<u8>>::empty(),
{
    let t1 = blk.drop_first();
    let t2 = t1.drop_first();
    let t3 = t2.drop_first();
    let t4 = t3.drop_first();
    assert(t4 =~= Seq::<u8>::empty());
    assert(t1[0] == blk[1] && t2[0] == blk[2] && t3[0] == blk[3]);
    let s1 = sync_step(s, blk[0]).0;
    let s2 = sync_step(s1, blk[1]).0;
    let s3 = sync_step(s2, blk[2]).0;
    let s4 = sync_step(s3, blk[3]).0;
    assert(s1.window =~= seq![blk[0]]);
    assert(s2.window =~= seq![blk[0], blk[1]]);
    assert(s3.window =~= seq![blk[0], blk[1], blk[2]]);
    assert(s3.window.push(blk[3]) =~= blk);
    assert(s4 == SyncModel { capturing: false, window: Seq::<u8>::empty(), frame: s.frame });
    assert(sync_run(s, blk) == sync_run(s1, t1));
    assert(sync_run(s1, t1) == sync_run(s2, t2));
    assert(sync_run(s2, t2) == sync_run(s3, t3));
    assert(sync_run(s3, t3) == sync_run(s4, t4));
    assert(sync_run(s4, t4) == s4);
    assert(sync_emits(s, blk) =~= sync_emits(s1, t1));
    assert(sync_emits(s1, t1) =~= sync_emits(s2, t2));
    assert(sync_emits(s2, t2) =~= sync_emits(s3, t3));
    assert(sync_emits(s3, t3) =~= sync_emits(s4, t4));
}

/// While scanning with an empty window, the START marker opens a frame:
/// the scanner enters capturing with an empty window again, and exactly the
/// marker's final byte remains in the frame buffer as residue.
proof fn lemma_start_detect(s: SyncModel)
    requires
        !s.capturing,
        s.window == Seq::<u8>::empty(),
    ensures
        sync_run(s, start_marker()) == (SyncModel {
            capturing: true,
            window: Seq::<u8>::empty(),
            frame: s.frame.push(0x2Fu8),
        }),
        sync_emits(s, start_marker()) =~= Seq::<Seq<u8>>::empty(),
{
    let blk = start_marker();
    lemma_marker_words();
    let t1 = blk.drop_first();
    let t2 = t1.drop_first();
    let t3 = t2.drop_first();
    let t4 = t3.drop_first();
    assert(t4 =~= Seq::<u8>::empty());
    assert(t1[0] == blk[1] && t2[0] == blk[2] && t3[0] == blk[3]);
    let s1 = sync_step(s, blk[0]).0;
    let s2 = sync_step(s1, blk[1]).0;
    let s3 = sync_step(s2, blk[2]).0;
    let s4 = sync_step(s3, blk[3]).0;
    assert(s1.window =~= seq![blk[0]]);
    assert(s2.window =~= seq![blk[0], blk[1]]);
    assert(s3.window =~= seq![blk[0], blk[1], blk[2]]);
    assert(s3.window.push(blk[3]) =~= blk);
    assert(s4 == SyncModel {
        capturing: true,
        window: Seq::<u8>::empty(),
        frame: s.frame.push(0x2Fu8),
    });
    assert(sync_run(s, blk) == sync_run(s1, t1));
    assert(sync_run(s1, t1) == sync_run(s2, t2));
    assert(sync_run(s2, t2) == sync_run(s3, t3));
    assert(sync_run(s3, t3) == sync_run(s4, t4));
    assert(sync_run(s4, t4) == s4);
    assert(sync_emits(s, blk) =~= sync_emits(s1, t1));
    assert(sync_emits(s1, t1) =~= sync_emits(s2, t2));
    assert(sync_emits(s2, t2) =~= sync_emits(s3, t3));
    assert(sync_emits(s3, t3) =~= sync_emits(s4, t4));
}

/// While capturing with an empty window, a 4-byte block that is not the
/// STOP marker is simply appended to the frame buffer; nothing is emitted.
proof fn lemma_capture_block(s: SyncModel, blk: Seq<u8>)
    requires
        s.capturing,
        s.window == Seq::<u8>::empty(),
        blk.len() == 4,
        !is_stop_window(blk),
    ensures
        sync_run(s, blk) == (SyncModel {
            capturing: true,
            window: Seq::<u8>::empty(),
            frame: s.frame + blk,
        }),
        sync_emits(s, blk) =~= Seq::<Seq<u8>>::empty(),
{
    let t1 = blk.drop_first();
    let t2 = t1.drop_first();
    let t3 = t2.drop_first();
    let t4 = t3.drop_first();
    assert(t4 =~= Seq::<u8>::empty());
    assert(t1[0] == blk[1] && t2[0] == blk[2] && t3[0] == blk[3]);
    let s1 = sync_step(s, blk[0]).0;
    let s2 = sync_step(s1, blk[1]).0;
    let s3 = sync_step(s2, blk[2]).0;
    let s4 = sync_step(s3, blk[3]).0;
    assert(s1.window =~= seq![blk[0]]);
    assert(s2.window =~= seq![blk[0], blk[1]]);
    assert(s3.window =~= seq![blk[0], blk[1], blk[2]]);
    assert(s3.window.push(blk[3]) =~= blk);
    assert(s.frame.push(blk[0]).push(blk[1]).push(blk[2]).push(blk[3]) =~= s.frame + blk);
    assert(s4 == SyncModel { capturing: true, window: Seq::<u8>::empty(), frame: s.frame + blk });
    assert(sync_run(s, blk) == sync_run(s1, t1));
    assert(sync_run(s1, t1) == sync_run(s2, t2));
    assert(sync_run(s2, t2) == sync_run(s3, t3));
    assert(sync_run(s3, t3) == sync_run(s4, t4));
    assert(sync_run(s4, t4) == s4);
    assert(sync_emits(s, blk) =~= sync_emits(s1, t1));
    assert(sync_emits(s1, t1) =~= sync_emits(s2, t2));
    assert(sync_emits(s2, t2) =~= sync_emits(s3, t3));
    assert(sync_emits(s3, t3) =~= sync_emits(s4, t4));
}

/// While capturing with an empty window and a frame buffer of more than
/// 5 bytes, the STOP marker finalizes the candidate: the leading residual
/// byte and the whole STOP marker are trimmed away, the trimmed buffer is
/// emitted, and the scanner returns to scanning with everything empty.
proof fn lemma_stop_finalize(s: SyncModel)
    requires
        s.capturing,
        s.window == Seq::<u8>::empty(),
        s.frame.len() > 5,
    ensures
        sync_run(s, stop_marker()) == (SyncModel {
            capturing: false,
            window: Seq::<u8>::empty(),
            frame: Seq::<u8>::empty(),
        }),
        sync_emits(s, stop_marker()) =~= seq![s.frame.drop_first()],
{
    let blk = stop_marker();
    lemma_marker_words();
    let t1 = blk.drop_first();
    let t2 = t1.drop_first();
    let t3 = t2.drop_first();
    let t4 = t3.drop_first();
    assert(t4 =~= Seq::<u8>::empty());
    assert(t1[0] == blk[1] && t2[0] == blk[2] && t3[0] == blk[3]);
    let s1 = sync_step(s, blk[0]).0;
    let s2 = sync_step(s1, blk[1]).0;
    let s3 = sync_step(s2, blk[2]).0;
    let s4 = sync_step(s3, blk[3]).0;
    assert(s1.window =~= seq![blk[0]]);
    assert(s2.window =~= seq![blk[0], blk[1]]);
    assert(s3.window =~= seq![blk[0], blk[1], blk[2]]);
    assert(s3.window.push(blk[3]) =~= blk);
    let f1 = s.frame.push(blk[0]).push(blk[1]).push(blk[2]).push(blk[3]);
    assert(f1 =~= s.frame + blk);
    let f2 = f1.drop_first();
    assert(f2.len() == s.frame.len() + 3);
    assert(f2.take(f2.len() - 4) =~= s.frame.drop_first());
    assert(s4 == SyncModel {
        capturing: false,
        window: Seq::<u8>::empty(),
        frame: Seq::<u8>::empty(),
    });
    assert(sync_step(s3, blk[3]).1 == Some(s.frame.drop_first()));
    assert(sync_run(s, blk) == sync_run(s1, t1));
    assert(sync_run(s1, t1) == sync_run(s2, t2));
    assert(sync_run(s2, t2) == sync_run(s3, t3));
    assert(sync_run(s3, t3) == sync_run(s4, t4));
    assert(sync_run(s4, t4) == s4);
    assert(sync_emits(s, blk) =~= sync_emits(s1, t1));
    assert(sync_emits(s1, t1) =~= sync_emits(s2, t2));
    assert(sync_emits(s2, t2) =~= sync_emits(s3, t3));
    assert(sync_emits(s3, t3) =~= seq![s.frame.drop_first()] + sync_emits(s4, t4));
}

/// While scanning with an empty window, a whole number of 4-byte blocks
/// none of which is the START marker is consumed without effect: the
/// scanner stays where it was and emits nothing.
proof fn lemma_scan_garbage(s: SyncModel, g: Seq<u8>)
    requires
        !s.capturing,
        s.window == Seq::<u8>::empty(),
        g.len() % 4 == 0,
        no_aligned_word(g, start_word()),
    ensures
        sync_run(s, g) == (SyncModel {
            capturing: false,
            window: Seq::<u8>::empty(),
            frame: s.frame,
        }),
        sync_emits(s, g) =~= Seq::<Seq<u8>>::empty(),
    decreases g.len(),
{
    if g.len() == 0 {
        assert(sync_run(s, g) == s);
        assert(s == SyncModel { capturing: false, window: Seq::<u8>::empty(), frame: s.frame });
    } else {
        let blk = g.take(4);
        let rest = g.skip(4);
        assert(g =~= blk + rest);
        lemma_scan_block(s, blk);
        let s1 = sync_run(s, blk);
        lemma_scan_garbage(s1, rest);
        lemma_sync_run_append(s, blk, rest);
    }
}

/// While capturing with an empty window, a payload made of whole 4-byte
/// blocks none of which is the STOP marker is appended to the frame buffer
/// in its entirety, with nothing emitted.
proof fn lemma_capture_payload(s: SyncModel, p: Seq<u8>)
    requires
        s.capturing,
        s.window == Seq::<u8>::empty(),
        p.len() % 4 == 0,
        no_aligned_word(p, stop_word()),
    ensures
        sync_run(s, p) == (SyncModel {
            capturing: true,
            window: Seq::<u8>::empty(),
            frame: s.frame + p,
        }),
        sync_emits(s, p) =~= Seq::<Seq<u8>>::empty(),
    decreases p.len(),
{
    if p.len() == 0 {
        assert(s.frame + p =~= s.frame);
        assert(sync_run(s, p) == s);
    } else {
        let blk = p.take(4);
        let rest = p.skip(4);
        assert(p =~= blk + rest);
        lemma_capture_block(s, blk);
        let s1 = sync_run(s, blk);
        lemma_capture_payload(s1, rest);
        lemma_sync_run_append(s, blk, rest);
        assert((s.frame + blk) + rest =~= s.frame + p);
    }
}

/// While scanning with an empty window, trailing bytes of any length with
/// no aligned START window never open a frame and never emit: scanning
/// never emits, and without the marker the scanner never leaves it.
proof fn lemma_scan_tail(s: SyncModel, t: Seq<u8>)
    requires
        !s.capturing,
        s.window.len() < 4,
        no_aligned_word(t, start_word()),
        s.window.len() + t.len() >= 4 ==> s.window == Seq::<u8>::empty(),
    ensures
        !sync_run(s, t).capturing,
        sync_emits(s, t) =~= Seq::<Seq<u8>>::empty(),
    decreases t.len(),
{
    if t.len() == 0 {
    } else if s.window.len() + t.len() < 4 {
        // the window only ever fills partially, so nothing is examined
        let s1 = sync_step(s, t[0]).0;
        assert(s1.window == s.window.push(t[0]));
        assert(!s1.capturing);
        lemma_scan_tail(s1, t.drop_first());
        assert(sync_emits(s, t) =~= sync_emits(s1, t.drop_first()));
    } else {
        let blk = t.take(4);
        let rest = t.skip(4);
        assert(t =~= blk + rest);
        lemma_scan_block(s, blk);
        lemma_scan_tail(sync_run(s, blk), rest);
        lemma_sync_run_append(s, blk, rest);
    }
}

/// Stream-isolation law: a stream of leading garbage, then START, a
/// payload free of aligned STOP windows, STOP, and trailing garbage makes
/// the synchronizer emit exactly one candidate frame, whose content is the
/// payload alone — both markers and all garbage excluded.
pub proof fn lemma_single_frame_emission(g: Seq<u8>, p: Seq<u8>, t: Seq<u8>)
    requires
        g.len() % 4 == 0,
        no_aligned_word(g, start_word()),
        p.len() % 4 == 0,
        p.len() >= 8,
        no_aligned_word(p, stop_word()),
        no_aligned_word(t, start_word()),
    ensures
        sync_emits(initial_sync(), g + start_marker() + p + stop_marker() + t) =~= seq![p],
{
    let s0 = initial_sync();
    let s1 = sync_run(s0, g);
    lemma_scan_garbage(s0, g);
    let s2 = sync_run(s1, start_marker());
    lemma_start_detect(s1);
    let s3 = sync_run(s2, p);
    lemma_capture_payload(s2, p);
    assert(s3.frame =~= seq![0x2Fu8] + p);
    let s4 = sync_run(s3, stop_marker());
    lemma_stop_finalize(s3);
    assert(s3.frame.drop_first() =~= p);
    lemma_scan_tail(s4, t);
    let w4 = stop_marker() + t;
    let w3 = p + w4;
    let w2 = start_marker() + w3;
    let w1 = g + w2;
    lemma_sync_run_append(s0, g, w2);
    lemma_sync_run_append(s1, start_marker(), w3);
    lemma_sync_run_append(s2, p, w4);
    lemma_sync_run_append(s3, stop_marker(), t);
    assert(sync_emits(s0, w1) =~= seq![p]);
    assert(w1 =~= g + start_marker() + p + stop_marker() + t);
}

/// Resynchronization law: a second START marker arriving while a frame is
/// already being captured does not corrupt the state — the synchronizer
/// remains in a single consistent capturing state and the frame buffer
/// simply grows by the marker's bytes, with nothing emitted.
pub proof fn lemma_repeated_start_keeps_capturing(s: SyncModel)
    requires
        s.capturing,
        s.window == Seq::<u8>::empty(),
    ensures
        sync_run(s, start_marker()) == (SyncModel {
            capturing: true,
            window: Seq::<u8>::empty(),
            frame: s.frame + start_marker(),
        }),
        sync_emits(s, start_marker()) =~= Seq::<Seq<u8>>::empty(),
{
    lemma_marker_words();
    lemma_capture_block(s, start_marker());
}

/// Two consecutive START markers from a fresh synchronizer leave it in a
/// single consistent capturing state: the first opens the frame, the
/// second only grows the buffer. Nothing is emitted.
pub proof fn lemma_two_starts_capture()
    ensures
        sync_run(initial_sync(), start_marker() + start_marker()) == (SyncModel {
            capturing: true,
            window: Seq::<u8>::empty(),
            frame: seq![0x2Fu8] + start_marker(),
        }),
        sync_emits(initial_sync(), start_marker() + start_marker()) =~= Seq::<Seq<u8>>::empty(),
{
    let s0 = initial_sync();
    lemma_start_detect(s0);
    let s1 = sync_run(s0, start_marker());
    assert(s1.frame =~= seq![0x2Fu8]);
    lemma_repeated_start_keeps_capturing(s1);
    lemma_sync_run_append(s0, start_marker(), start_marker());
}

/// The frame synchronizer: scans a raw byte stream for marker-delimited
/// candidate frames. Its state persists across input chunks.
pub struct FrameSync {
    capturing: bool,
    window: Vec<u8>,
    frame: Vec<u8>,
}

impl View for FrameSync {
    type V = SyncModel;

    closed spec fn view(&self) -> SyncModel {
        SyncModel { capturing: self.capturing, window: self.window@, frame: self.frame@ }
    }
}

impl FrameSync {
    /// The alignment window never holds more than 4 bytes.
    pub closed spec fn wf(&self) -> bool {
        self.window@.len() <= 4
    }

    /// A fresh synchronizer: scanning, with everything empty.
    pub fn new() -> (r: FrameSync)
        ensures
            r.wf(),
            r@ == initial_sync(),
    {
        let r = FrameSync { capturing: false, window: Vec::new(), frame: Vec::new() };
        proof {
            assert(r@.window =~= initial_sync().window);
            assert(r@.frame =~= initial_sync().frame);
        }
        r
    }

    /// Feed one byte; returns the candidate frame this byte finalized, if
    /// any. The new state and the emission are exactly those of `sync_step`.
    pub fn push_byte(&mut self, b: u8) -> (r: Option<Vec<u8>>)
        requires
            old(self).wf(),
        ensures
            final(self).wf(),
            final(self)@ == sync_step(old(self)@, b).0,
            match r {
                Some(f) => sync_step(old(self)@, b).1 == Some(f@),
                None => sync_step(old(self)@, b).1 is None,
            },
    {
        if self.window.len() == 4 {
            self.window.clear();
        }
        self.window.push(b);
        if !self.capturing {
            if self.window.len() == 4 {
                let w = crate::message::get_hex_from_chunk(self.window.as_slice());
                if w == 0x2F2F_2F2F {
                    self.capturing = true;
                    self.frame.push(b);
                    self.window.clear();
                } else {
                    self.window.clear();
                }
            }
            None
        } else {
            self.frame.push(b);
            if self.window.len() == 4 {
                let w = crate::message::get_hex_from_chunk(self.window.as_slice());
                if w == 0x5C5C_5C5C {
                    self.frame.remove(0);
                    if self.frame.len() > 8 {
                        self.capturing = false;
                        self.frame.truncate(self.frame.len() - 4);
                        let mut emitted: Vec<u8> = Vec::new();
                        core::mem::swap(&mut emitted, &mut self.frame);
                        self.window.clear();
                        return Some(emitted);
                    }
                    None
                } else {
                    self.window.clear();
                    None
                }
            } else {
                None
            }
        }
    }
}

} // verus!
