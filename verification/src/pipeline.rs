//! Ingestion pipeline: runs the frame synchronizer over a chunk of raw
//! bytes, applies the length-sanity and CRC checks to each finalized
//! candidate frame, and decodes the accepted frames into records, in stream
//! order. A frame that fails a check is silently dropped and scanning
//! resumes; parsing-level errors are never surfaced.

use vstd::prelude::*;
use crate::control::ControlGate;
use crate::crc::crc_check_spec;
use crate::decoder::decoded_record;
use crate::frame::{
    FrameSync, SyncModel, initial_sync, lemma_single_frame_emission, no_aligned_word, start_marker,
    start_word, stop_marker, stop_word, sync_emits, sync_run, sync_step,
};
use crate::message::length_field;
use crate::record::{EntryModel, VariableRecord, record_views};

verus! {

/// A finalized frame's byte length agrees with its declared payload-unit
/// count — `(length + 3) * 4` bytes in all — and stays within the 256-byte
/// frame bound.
pub open spec fn length_check(frame: Seq<u8>) -> bool {
    frame.len() == (length_field(frame) + 3) * 4 && frame.len() <= 256
}

/// A finalized frame is accepted when it passes both the length-sanity
/// check and the CRC check.
pub open spec fn frame_accepted(frame: Seq<u8>, table: Seq<u8>) -> bool {
    length_check(frame) && crc_check_spec(frame, table)
}

/// The records decoded from a sequence of finalized frames: each accepted
/// frame contributes its decoded record, in order; a rejected frame
/// contributes nothing.
pub open spec fn records_of_frames(frames: Seq<Seq<u8>>, table: Seq<u8>) -> Seq<Seq<EntryModel>>
    decreases frames.len(),
{
    if frames.len() == 0 {
        Seq::<Seq<EntryModel>>::empty()
    } else {
        (if frame_accepted(frames[0], table) {
            seq![decoded_record(frames[0])]
        } else {
            Seq::<Seq<EntryModel>>::empty()
        }) + records_of_frames(frames.drop_first(), table)
    }
}

/// Validate one finalized candidate frame and decode it: the record comes
/// back exactly when the frame passes the length-sanity and CRC checks.
pub fn validate_and_decode(frame: &Vec<u8>, table: &Vec<u8>) -> (r: Option<VariableRecord>)
    requires
        frame@.len() >= 4,
        table@.len() == 256,
    ensures
        r is Some <==> frame_accepted(frame@, table@),
        match r {
            Some(rec) => rec@ == decoded_record(frame@),
            None => true,
        },
{
    if frame.len() <= 256 {
        let declared = crate::message::get_length_of_message_data(frame);
        let expected_len: u32 = (declared + 3) * 4;
        if frame.len() == expected_len as usize {
            if crate::crc::crc_check(frame, table) {
                return Some(crate::decoder::get_structured_message_data(frame));
            }
        }
    }
    None
}

/// `sync_run` distributes over splitting the input at its last byte.
proof fn lemma_sync_run_snoc(s: SyncModel, bytes: Seq<u8>, b: u8)
    ensures
        sync_run(s, bytes.push(b)) == sync_step(sync_run(s, bytes), b).0,
    decreases bytes.len(),
{
    if bytes.len() == 0 {
        assert(bytes.push(b)[0] == b);
        assert(bytes.push(b).drop_first() =~= Seq::<u8>::empty());
        assert(sync_run(s, bytes.push(b)) == sync_run(
            sync_step(s, b).0,
            Seq::<u8>::empty(),
        ));
        assert(sync_run(s, bytes) == s);
    } else {
        assert(bytes.push(b)[0] == bytes[0]);
        assert(bytes.push(b).drop_first() =~= bytes.drop_first().push(b));
        lemma_sync_run_snoc(sync_step(s, bytes[0]).0, bytes.drop_first(), b);
        assert(sync_run(s, bytes.push(b)) == sync_run(
            sync_step(s, bytes[0]).0,
            bytes.drop_first().push(b),
        ));
        assert(sync_run(s, bytes) == sync_run(sync_step(s, bytes[0]).0, bytes.drop_first()));
    }
}

/// `sync_emits` over an input extended by one byte is the emissions so far
/// plus whatever that byte finalizes.
proof fn lemma_sync_emits_snoc(s: SyncModel, bytes: Seq<u8>, b: u8)
    ensures
        sync_emits(s, bytes.push(b)) =~= sync_emits(s, bytes) + (match sync_step(
            sync_run(s, bytes),
            b,
        ).1 {
            Some(f) => seq![f],
            None => Seq::<Seq<u8>>::empty(),
        }),
    decreases bytes.len(),
{
    if bytes.len() == 0 {
        assert(bytes.push(b)[0] == b);
        assert(bytes.push(b).drop_first() =~= Seq::<u8>::empty());
        assert(sync_emits(s, bytes) == Seq::<Seq<u8>>::empty());
        assert(sync_emits(sync_step(s, b).0, Seq::<u8>::empty()) == Seq::<Seq<u8>>::empty());
        assert(sync_run(s, bytes) == s);
    } else {
        assert(bytes.push(b)[0] == bytes[0]);
        assert(bytes.push(b).drop_first() =~= bytes.drop_first().push(b));
        lemma_sync_emits_snoc(sync_step(s, bytes[0]).0, bytes.drop_first(), b);
        assert(sync_run(s, bytes) == sync_run(sync_step(s, bytes[0]).0, bytes.drop_first()));
        assert(sync_emits(s, bytes.push(b)) == (match sync_step(s, bytes[0]).1 {
            Some(f) => seq![f],
            None => Seq::<Seq<u8>>::empty(),
        }) + sync_emits(sync_step(s, bytes[0]).0, bytes.drop_first().push(b)));
        assert(sync_emits(s, bytes) == (match sync_step(s, bytes[0]).1 {
            Some(f) => seq![f],
            None => Seq::<Seq<u8>>::empty(),
        }) + sync_emits(sync_step(s, bytes[0]).0, bytes.drop_first()));
    }
}

/// `records_of_frames` distributes over concatenation of frame sequences.
proof fn lemma_records_of_frames_append(a: Seq<Seq<u8>>, c: Seq<Seq<u8>>, table: Seq<u8>)
    ensures
        records_of_frames(a + c, table) =~= records_of_frames(a, table) + records_of_frames(
            c,
            table,
        ),
    decreases a.len(),
{
    if a.len() == 0 {
        assert(a + c =~= c);
    } else {
        assert((a + c)[0] == a[0]);
        assert((a + c).drop_first() =~= a.drop_first() + c);
        lemma_records_of_frames_append(a.drop_first(), c, table);
    }
}

/// Run the synchronizer over one chunk of raw bytes and return the records
/// of the frames it finalizes and accepts, in stream order. The
/// synchronizer's state carries over, so a frame may span several chunks.
pub fn process_chunk(sync: &mut FrameSync, data: &Vec<u8>, table: &Vec<u8>) -> (records: Vec<
    VariableRecord,
>)
    requires
        old(sync).wf(),
        table@.len() == 256,
    ensures
        final(sync).wf(),
        final(sync)@ == sync_run(old(sync)@, data@),
        record_views(records@) == records_of_frames(sync_emits(old(sync)@, data@), table@),
{
    let mut records: Vec<VariableRecord> = Vec::new();
    let mut i: usize = 0;
    proof {
        assert(data@.take(0) =~= Seq::<u8>::empty());
        assert(record_views(records@) =~= records_of_frames(
            sync_emits(old(sync)@, data@.take(0)),
            table@,
        ));
    }
    while i < data.len()
        invariant
            sync.wf(),
            table@.len() == 256,
            i <= data@.len(),
            sync@ == sync_run(old(sync)@, data@.take(i as int)),
            record_views(records@) =~= records_of_frames(
                sync_emits(old(sync)@, data@.take(i as int)),
                table@,
            ),
        decreases data@.len() - i,
    {
        let b = data[i];
        let ghost prefix = data@.take(i as int);
        proof {
            assert(data@.take(i + 1) =~= prefix.push(b));
            lemma_sync_run_snoc(old(sync)@, prefix, b);
            lemma_sync_emits_snoc(old(sync)@, prefix, b);
        }
        let ghost emits0 = sync_emits(old(sync)@, prefix);
        let ghost emits1 = sync_emits(old(sync)@, data@.take(i + 1));
        match sync.push_byte(b) {
            Some(frame) => {
                proof {
                    assert(emits1 =~= emits0 + seq![frame@]);
                    lemma_records_of_frames_append(emits0, seq![frame@], table@);
                    assert(seq![frame@].drop_first() =~= Seq::<Seq<u8>>::empty());
                    assert(seq![frame@][0] == frame@);
                    assert(records_of_frames(Seq::<Seq<u8>>::empty(), table@) == Seq::<
                        Seq<EntryModel>,
                    >::empty());
                    assert(records_of_frames(seq![frame@], table@) == (if frame_accepted(
                        frame@,
                        table@,
                    ) {
                        seq![decoded_record(frame@)]
                    } else {
                        Seq::<Seq<EntryModel>>::empty()
                    }) + records_of_frames(seq![frame@].drop_first(), table@));
                    assert(frame@.len() >= 4);
                }
                match validate_and_decode(&frame, table) {
                    Some(rec) => {
                        proof {
                            assert(records_of_frames(seq![frame@], table@) =~= seq![
                                decoded_record(frame@),
                            ]);
                            assert(record_views(records@.push(rec)) =~= record_views(records@)
                                + seq![rec@]);
                            assert(record_views(records@.push(rec)) =~= records_of_frames(
                                emits1,
                                table@,
                            ));
                        }
                        records.push(rec);
                    },
                    None => {
                        proof {
                            assert(records_of_frames(seq![frame@], table@) =~= Seq::<
                                Seq<EntryModel>,
                            >::empty());
                            assert(record_views(records@) =~= records_of_frames(emits1, table@));
                        }
                    },
                }
            },
            None => {
                proof {
                    assert(emits1 =~= emits0);
                    assert(record_views(records@) =~= records_of_frames(emits1, table@));
                }
            },
        }
        i += 1;
    }
    proof {
        assert(data@.take(data@.len() as int) =~= data@);
    }
    records
}

/// The synchronizer state after one iteration of the ingestion loop: a
/// running gate lets the available bytes be read and fed through, while a
/// paused gate leaves the state untouched, no read being issued.
pub open spec fn gated_state(running: bool, m: SyncModel, data: Seq<u8>) -> SyncModel {
    if running {
        sync_run(m, data)
    } else {
        m
    }
}

/// The records one iteration of the ingestion loop publishes: those of
/// the accepted frames under a running gate, and none at all under a
/// paused one.
pub open spec fn gated_records(running: bool, m: SyncModel, data: Seq<u8>, table: Seq<u8>) -> Seq<
    Seq<EntryModel>,
> {
    if running {
        records_of_frames(sync_emits(m, data), table)
    } else {
        Seq::<Seq<EntryModel>>::empty()
    }
}

/// One iteration of the gated ingestion loop. A running gate lets the
/// available bytes be read and whatever frames they complete be decoded;
/// under a paused gate nothing is read, nothing is published and the
/// synchronizer state is untouched, even while well-formed frames keep
/// arriving in the source buffer.
pub fn ingest_step(sync: &mut FrameSync, gate: &ControlGate, available: &Vec<u8>, table: &Vec<
    u8,
>) -> (records: Vec<VariableRecord>)
    requires
        old(sync).wf(),
        table@.len() == 256,
    ensures
        final(sync).wf(),
        final(sync)@ == gated_state(gate.running, old(sync)@, available@),
        record_views(records@) == gated_records(gate.running, old(sync)@, available@, table@),
        !gate.running ==> records@.len() == 0 && final(sync)@ == old(sync)@,
{
    if gate.running {
        process_chunk(sync, available, table)
    } else {
        let records: Vec<VariableRecord> = Vec::new();
        proof {
            assert(record_views(records@) =~= Seq::<Seq<EntryModel>>::empty());
        }
        records
    }
}

/// End-to-end law: over a byte stream made of leading garbage, one framed
/// payload and trailing garbage, the pipeline yields exactly the decoded
/// record of that payload when it passes the length and CRC checks, and
/// nothing at all when it does not — and in either case the garbage and the
/// markers contribute nothing.
pub proof fn lemma_stream_pipeline(g: Seq<u8>, p: Seq<u8>, t: Seq<u8>, table: Seq<u8>)
    requires
        g.len() % 4 == 0,
        no_aligned_word(g, start_word()),
        p.len() % 4 == 0,
        p.len() >= 8,
        no_aligned_word(p, stop_word()),
        no_aligned_word(t, start_word()),
    ensures
        frame_accepted(p, table) ==> records_of_frames(
            sync_emits(initial_sync(), g + start_marker() + p + stop_marker() + t),
            table,
        ) =~= seq![decoded_record(p)],
        !frame_accepted(p, table) ==> records_of_frames(
            sync_emits(initial_sync(), g + start_marker() + p + stop_marker() + t),
            table,
        ) =~= Seq::<Seq<EntryModel>>::empty(),
{
    lemma_single_frame_emission(g, p, t);
    assert(seq![p].drop_first() =~= Seq::<Seq<u8>>::empty());
    assert(seq![p][0] == p);
    assert(records_of_frames(Seq::<Seq<u8>>::empty(), table) == Seq::<Seq<EntryModel>>::empty());
}

/// Gate law: a paused gate halts publishing — an iteration under it
/// emits nothing and leaves the synchronizer exactly as it was — and a
/// later running iteration resumes from that same state, behaving as if
/// the pause had never happened; no re-initialization is needed.
pub proof fn lemma_gate_pause_resume(
    m: SyncModel,
    arriving: Seq<u8>,
    later: Seq<u8>,
    table: Seq<u8>,
)
    ensures
        gated_records(false, m, arriving, table) == Seq::<Seq<EntryModel>>::empty(),
        gated_state(false, m, arriving) == m,
        gated_state(true, gated_state(false, m, arriving), later) == gated_state(true, m, later),
        gated_records(true, gated_state(false, m, arriving), later, table) == gated_records(
            true,
            m,
            later,
            table,
        ),
{
}

} // verus!
