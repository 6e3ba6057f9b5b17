//! Write-ahead log and snapshot records.
//!
//! Records are length-prefixed (a 32-bit little-endian count of payload
//! bytes) and appended in order across numbered segments. The log keeps each
//! segment as a byte buffer here; reading and writing those buffers on disk
//! is the embedding driver's job. Opening a log tolerates a trailing partial
//! record — the normal residue of a crash — by truncating it; a complete
//! record that does not decode is corruption and is refused.

use crate::codec::{
    dec_record_payload, dec_record_payload_exec, enc_record_payload, enc_record_payload_exec,
    enc_u32, record_abs, record_wf, WalRecordModel,
};
use crate::{State, Transition};
use vstd::bytes::spec_u32_from_le_bytes;
use vstd::prelude::*;

verus! {

/// One durable record of the write-ahead log.
#[derive(Debug)]
pub enum WALEntry {
    /// A consensus log entry.
    LogEntry { index: usize, term: u64, transition: Transition },
    /// A full-state snapshot recorded into the log.
    Snapshot { index: usize, term: u64, state: State },
    /// A change of the persistent term or vote.
    Metadata { current_term: u64, voted_for: Option<u64> },
    /// An advance of the commit index.
    Commit { index: usize },
}

impl View for WALEntry {
    type V = WalRecordModel;

    open spec fn view(&self) -> WalRecordModel {
        match self {
            WALEntry::LogEntry { index, term, transition } => WalRecordModel::LogEntry {
                index: *index,
                term: *term,
                transition: transition@,
            },
            WALEntry::Snapshot { index, term, state } => WalRecordModel::Snapshot {
                index: *index,
                term: *term,
                state: state.repr(),
            },
            WALEntry::Metadata { current_term, voted_for } => WalRecordModel::Metadata {
                current_term: *current_term,
                voted_for: *voted_for,
            },
            WALEntry::Commit { index } => WalRecordModel::Commit { index: *index },
        }
    }
}

/// Configuration of the write-ahead log.
#[derive(Debug, Clone)]
pub struct WALConfig {
    /// Segment size at which the log rolls over to a new segment.
    pub max_file_size: usize,
    /// Flush to durable storage after every append.
    pub sync_on_write: bool,
    /// Compress record payloads (not used by this store).
    pub compression: bool,
}

impl Default for WALConfig {
    /// Safety over performance: sync on every write, 64 MiB segments.
    fn default() -> (r: WALConfig)
        ensures
            r.max_file_size == 67108864,
            r.sync_on_write,
            !r.compression,
    {
        WALConfig { max_file_size: 67108864, sync_on_write: true, compression: false }
    }
}

/// Errors of the record store.
#[derive(Debug, PartialEq, Eq)]
pub enum WalError {
    /// A record's payload does not fit the 32-bit length prefix.
    RecordTooLarge,
    /// A complete record failed to decode: the log is corrupt.
    CorruptRecord,
}

// ---------------------------------------------------------------------------
// Framing: one record is a 4-byte length followed by that many payload bytes.
// ---------------------------------------------------------------------------
/// A framed record: length prefix, then the payload.
pub open spec fn frame(payload: Seq<u8>) -> Seq<u8> {
    enc_u32(payload.len() as u32) + payload
}

/// The byte stream of a record sequence.
pub open spec fn spec_frames(records: Seq<WalRecordModel>) -> Seq<u8>
    decreases records.len(),
{
    if records.len() == 0 {
        Seq::empty()
    } else {
        frame(enc_record_payload(records[0])) + spec_frames(records.drop_first())
    }
}

/// The bytes start with a record whose length prefix or payload is cut off:
/// the residue of a crash during an append.
pub open spec fn partial_frame(s: Seq<u8>) -> bool {
    s.len() < 4 || s.len() < 4 + (spec_u32_from_le_bytes(s.subrange(0, 4)) as int)
}

/// Scanning a byte stream: all complete records, in order. The scan stops
/// cleanly at a trailing partial record; a complete record that does not
/// decode exactly is corruption, reported as `None`.
pub open spec fn spec_scan(s: Seq<u8>) -> Option<Seq<WalRecordModel>>
    decreases s.len(),
{
    if partial_frame(s) {
        Some(Seq::empty())
    } else {
        let len = spec_u32_from_le_bytes(s.subrange(0, 4)) as int;
        let payload = s.subrange(4, 4 + len);
        match dec_record_payload(payload) {
            Some((m, c)) => if c == len {
                match spec_scan(s.skip(4 + len)) {
                    None => None,
                    Some(rest) => Some(seq![m] + rest),
                }
            } else {
                None
            },
            None => None,
        }
    }
}

/// How many bytes of the stream the scan's complete records cover.
pub open spec fn spec_scan_len(s: Seq<u8>) -> int
    decreases s.len(),
{
    if partial_frame(s) {
        0
    } else {
        let len = spec_u32_from_le_bytes(s.subrange(0, 4)) as int;
        4 + len + spec_scan_len(s.skip(4 + len))
    }
}

/// A fully framed stream: the scan succeeds and covers every byte.
pub open spec fn fully_framed(s: Seq<u8>) -> bool {
    &&& spec_scan(s) is Some
    &&& spec_scan_len(s) == s.len()
}

/// Reading back an encoded record stream yields exactly the records that
/// were appended, whatever partial trailing record a crash left behind.
pub proof fn lemma_scan_frames(records: Seq<WalRecordModel>, junk: Seq<u8>)
    requires
        forall|i: int| 0 <= i < records.len() ==> record_wf(#[trigger] records[i]),
        forall|i: int|
            0 <= i < records.len() ==> enc_record_payload(#[trigger] records[i]).len()
                <= u32::MAX,
        partial_frame(junk),
    ensures
        spec_scan(spec_frames(records) + junk) == Some(records),
        spec_scan_len(spec_frames(records) + junk) == spec_frames(records).len(),
    decreases records.len(),
{
    vstd::bytes::lemma_auto_spec_u32_to_from_le_bytes();
    if records.len() == 0 {
        assert(spec_frames(records) + junk =~= junk);
        assert(records =~= Seq::<WalRecordModel>::empty());
    } else {
        let m = records[0];
        let payload = enc_record_payload(m);
        let len = payload.len() as int;
        let rest = spec_frames(records.drop_first()) + junk;
        let s = spec_frames(records) + junk;
        assert(s =~= enc_u32(payload.len() as u32) + payload + rest);
        assert(s.subrange(0, 4) =~= enc_u32(payload.len() as u32));
        assert(spec_u32_from_le_bytes(s.subrange(0, 4)) == payload.len() as u32);
        assert(!partial_frame(s)) by {
            assert(s.len() >= 4 + len);
        }
        assert(s.subrange(4, 4 + len) =~= payload);
        crate::codec::lemma_dec_enc_record_payload(m);
        assert(s.skip(4 + len) =~= rest);
        assert(forall|i: int|
            0 <= i < records.drop_first().len() ==> records.drop_first()[i] == records[i + 1]);
        lemma_scan_frames(records.drop_first(), junk);
        assert(seq![m] + records.drop_first() =~= records);
    }
}

/// Appending one full frame to a fully framed stream extends the scan by
/// that one record.
proof fn lemma_scan_append(s: Seq<u8>, m: WalRecordModel)
    requires
        fully_framed(s),
        record_wf(m),
        enc_record_payload(m).len() <= u32::MAX,
    ensures
        spec_scan(s + frame(enc_record_payload(m))) == Some(
            spec_scan(s).unwrap().push(m),
        ),
        fully_framed(s + frame(enc_record_payload(m))),
    decreases s.len(),
{
    vstd::bytes::lemma_auto_spec_u32_to_from_le_bytes();
    crate::codec::lemma_dec_enc_record_payload(m);
    let payload = enc_record_payload(m);
    let fr = frame(payload);
    let t = s + fr;
    if partial_frame(s) {
        // a fully framed stream with a partial head is empty
        assert(s.len() == 0);
        assert(t =~= fr);
        assert(t.subrange(0, 4) =~= enc_u32(payload.len() as u32));
        let len2 = spec_u32_from_le_bytes(t.subrange(0, 4)) as int;
        assert(len2 == payload.len());
        assert(!partial_frame(t));
        assert(t.subrange(4, 4 + len2) =~= payload);
        let after = t.skip(4 + len2);
        assert(after =~= Seq::<u8>::empty());
        assert(partial_frame(after));
        assert(spec_scan(after) == Some(Seq::<WalRecordModel>::empty()));
        assert(spec_scan_len(after) == 0);
        assert(spec_scan(t) == Some(seq![m] + Seq::<WalRecordModel>::empty()));
        assert(spec_scan(s) == Some(Seq::<WalRecordModel>::empty()));
        assert(spec_scan(s).unwrap().push(m) =~= seq![m] + Seq::<WalRecordModel>::empty());
        assert(spec_scan_len(t) == 4 + len2 + 0);
        assert(t.len() == 4 + payload.len());
    } else {
        let len = spec_u32_from_le_bytes(s.subrange(0, 4)) as int;
        assert(t.subrange(0, 4) =~= s.subrange(0, 4));
        assert(t.len() >= s.len() >= 4 + len) by {
            assert(spec_scan_len(s) == s.len());
            lemma_scan_len_nonneg(s.skip(4 + len));
        }
        assert(!partial_frame(t));
        assert(t.subrange(4, 4 + len) =~= s.subrange(4, 4 + len));
        assert(t.skip(4 + len) =~= s.skip(4 + len) + fr);
        let head = dec_record_payload(s.subrange(4, 4 + len));
        match head {
            None => {
                // contradicts fully_framed(s)
                assert(spec_scan(s) is None);
            },
            Some((m0, c0)) => {
                if c0 != len {
                    assert(spec_scan(s) is None);
                } else {
                    let rest = s.skip(4 + len);
                    assert(spec_scan(rest) is Some);
                    assert(spec_scan_len(rest) == rest.len()) by {
                        assert(spec_scan_len(s) == 4 + len + spec_scan_len(rest));
                    }
                    lemma_scan_append(rest, m);
                    let tail_old = spec_scan(rest).unwrap();
                    assert(spec_scan(t) == Some(seq![m0] + tail_old.push(m)));
                    assert(seq![m0] + tail_old.push(m) =~= (seq![m0] + tail_old).push(m));
                    assert(spec_scan(s).unwrap() == seq![m0] + tail_old);
                    assert(spec_scan_len(t) == 4 + len + spec_scan_len(rest + fr));
                    assert(t.len() == s.len() + fr.len());
                }
            },
        }
    }
}

/// The scanned byte count is never negative.
proof fn lemma_scan_len_nonneg(s: Seq<u8>)
    ensures
        spec_scan_len(s) >= 0,
    decreases s.len(),
{
    if !partial_frame(s) {
        let len = spec_u32_from_le_bytes(s.subrange(0, 4)) as int;
        lemma_scan_len_nonneg(s.skip(4 + len));
    }
}

/// Truncating a stream to the bytes its scan covered keeps exactly the
/// scanned records, and the result is fully framed.
proof fn lemma_scan_truncate(s: Seq<u8>)
    requires
        spec_scan(s) is Some,
    ensures
        0 <= spec_scan_len(s) <= s.len(),
        spec_scan(s.subrange(0, spec_scan_len(s))) == spec_scan(s),
        fully_framed(s.subrange(0, spec_scan_len(s))),
    decreases s.len(),
{
    vstd::bytes::lemma_auto_spec_u32_to_from_le_bytes();
    if partial_frame(s) {
        assert(s.subrange(0, 0) =~= Seq::<u8>::empty());
        assert(partial_frame(s.subrange(0, 0)));
    } else {
        let len = spec_u32_from_le_bytes(s.subrange(0, 4)) as int;
        let rest = s.skip(4 + len);
        assert(spec_scan(rest) is Some);
        lemma_scan_truncate(rest);
        let t = s.subrange(0, spec_scan_len(s));
        assert(spec_scan_len(s) == 4 + len + spec_scan_len(rest));
        assert(t.subrange(0, 4) =~= s.subrange(0, 4));
        assert(!partial_frame(t));
        assert(t.subrange(4, 4 + len) =~= s.subrange(4, 4 + len));
        assert(t.skip(4 + len) =~= rest.subrange(0, spec_scan_len(rest)));
    }
}

// ---------------------------------------------------------------------------
// Executable scanning.
// ---------------------------------------------------------------------------
/// Scans one segment buffer: the complete records in order and the number of
/// bytes they cover, or the corruption error.
pub fn scan_segment(seg: &Vec<u8>) -> (r: Result<(Vec<WALEntry>, usize), WalError>)
    ensures
        match r {
            Ok((entries, consumed)) => {
                &&& spec_scan(seg@) is Some
                &&& entries@.len() == spec_scan(seg@).unwrap().len()
                &&& forall|i: int|
                    0 <= i < entries@.len() ==> record_abs(#[trigger] entries@[i]@) == record_abs(
                        spec_scan(seg@).unwrap()[i],
                    )
                &&& consumed == spec_scan_len(seg@)
                &&& consumed <= seg@.len()
            },
            Err(e) => spec_scan(seg@) is None && e == WalError::CorruptRecord,
        },
{
    let n = seg.len();
    let mut entries: Vec<WALEntry> = Vec::new();
    let mut pos: usize = 0;
    proof {
        assert(seg@.skip(0) =~= seg@);
    }
    loop
        invariant
            0 <= pos <= n,
            n == seg@.len(),
            ({
                let tail = seg@.skip(pos as int);
                &&& (match spec_scan(tail) {
                    None => spec_scan(seg@) is None,
                    Some(ms) => spec_scan(seg@) is Some && spec_scan(seg@).unwrap().len()
                        == entries@.len() + ms.len() && (forall|i: int|
                        0 <= i < entries@.len() ==> record_abs(#[trigger] entries@[i]@)
                            == record_abs(spec_scan(seg@).unwrap()[i])) && (forall|i: int|
                        0 <= i < ms.len() ==> ms[i] == spec_scan(seg@).unwrap()[entries@.len()
                            + i]),
                })
                &&& spec_scan_len(seg@) == pos + spec_scan_len(tail)
            }),
        decreases n - pos,
    {
        let ghost tail = seg@.skip(pos as int);
        if n - pos < 4 {
            proof {
                assert(partial_frame(tail));
            }
            return Ok((entries, pos));
        }
        let len_res = crate::codec::dec_u32_exec(seg, pos);
        let (len32, _c4) = match len_res {
            Some(p) => p,
            None => {
                proof {
                    assert(tail.len() >= 4);
                    assert(false);
                }
                return Err(WalError::CorruptRecord);
            },
        };
        proof {
            assert(tail.subrange(0, 4) =~= seg@.subrange(pos as int, pos + 4 as int));
            assert(spec_u32_from_le_bytes(tail.subrange(0, 4)) == len32);
        }
        let len = len32 as usize;
        if n - pos - 4 < len {
            proof {
                assert(partial_frame(tail));
            }
            return Ok((entries, pos));
        }
        proof {
            assert(!partial_frame(tail));
        }
        let payload = vstd::slice::slice_to_vec(
            vstd::slice::slice_subrange(seg.as_slice(), pos + 4, pos + 4 + len),
        );
        proof {
            assert(payload@ =~= tail.subrange(4, 4 + len as int));
        }
        match dec_record_payload_exec(&payload, 0) {
            None => {
                proof {
                    assert(payload@.skip(0) =~= payload@);
                }
                return Err(WalError::CorruptRecord);
            },
            Some((entry, c)) => {
                if c != len {
                    proof {
                        assert(payload@.skip(0) =~= payload@);
                    }
                    return Err(WalError::CorruptRecord);
                }
                let ghost entries_before = entries@;
                entries.push(entry);
                proof {
                    assert(payload@.skip(0) =~= payload@);
                    let mspec = dec_record_payload(payload@).unwrap().0;
                    assert(tail.skip(4 + len as int) =~= seg@.skip((pos + 4 + len) as int));
                    let tail2 = seg@.skip((pos + 4 + len) as int);
                    match spec_scan(tail2) {
                        None => {
                            assert(spec_scan(tail) is None);
                        },
                        Some(rest) => {
                            assert(spec_scan(tail) == Some(seq![mspec] + rest));
                            let ms = seq![mspec] + rest;
                            let whole = spec_scan(seg@).unwrap();
                            assert(ms[0] == mspec);
                            assert(whole[entries_before.len() as int] == mspec);
                            assert forall|i: int| 0 <= i < entries@.len() implies record_abs(
                                #[trigger] entries@[i]@,
                            ) == record_abs(whole[i]) by {
                                if i < entries_before.len() {
                                    assert(entries@[i] == entries_before[i]);
                                } else {
                                    assert(entries@[i] == entry);
                                }
                            }
                            assert forall|i: int| 0 <= i < rest.len() implies rest[i] == whole[
                                entries@.len() + i
                            ] by {
                                assert(ms[i + 1] == rest[i]);
                            }
                        },
                    }
                    assert(spec_scan_len(tail) == 4 + len + spec_scan_len(tail2));
                }
                pos = pos + 4 + len;
            },
        }
    }
}

// ---------------------------------------------------------------------------
// The write-ahead log over in-memory segment buffers.
// ---------------------------------------------------------------------------
/// The records of a sequence of fully framed segments, oldest first.
pub open spec fn segments_records(segs: Seq<Seq<u8>>) -> Seq<WalRecordModel>
    decreases segs.len(),
{
    if segs.len() == 0 {
        Seq::empty()
    } else {
        segments_records(segs.drop_last()) + (match spec_scan(segs.last()) {
            Some(ms) => ms,
            None => Seq::empty(),
        })
    }
}

/// Splitting the segment list splits the record list.
proof fn lemma_segments_records_split(segs: Seq<Seq<u8>>, j: int)
    requires
        0 <= j <= segs.len(),
    ensures
        segments_records(segs) == segments_records(segs.subrange(0, j)) + segments_records(
            segs.skip(j),
        ),
    decreases segs.len(),
{
    if segs.len() == 0 {
        assert(segs.subrange(0, j) =~= segs);
        assert(segs.skip(j) =~= segs);
        assert(segments_records(segs) + segments_records(segs) =~= segments_records(segs));
    } else if j == segs.len() {
        assert(segs.subrange(0, j) =~= segs);
        assert(segs.skip(j) =~= Seq::<Seq<u8>>::empty());
        assert(segments_records(segs) + segments_records(segs.skip(j)) =~= segments_records(
            segs,
        ));
    } else {
        let d = segs.drop_last();
        lemma_segments_records_split(d, j);
        assert(segs.subrange(0, j) =~= d.subrange(0, j));
        assert(segs.skip(j).drop_last() =~= d.skip(j));
        assert(segs.skip(j).last() == segs.last());
        let tailrec = match spec_scan(segs.last()) {
            Some(ms) => ms,
            None => Seq::<WalRecordModel>::empty(),
        };
        assert(segments_records(segs) == segments_records(d) + tailrec);
        assert(segments_records(segs.skip(j)) == segments_records(d.skip(j)) + tailrec);
        assert((segments_records(d.subrange(0, j)) + segments_records(d.skip(j))) + tailrec
            =~= segments_records(d.subrange(0, j)) + (segments_records(d.skip(j)) + tailrec));
    }
}

/// Append-only record log over numbered segments.
pub struct WAL {
    /// Segment buffers, oldest first; each fully framed.
    segments: Vec<Vec<u8>>,
    /// Segment number of the first buffer held.
    base_seq: usize,
    /// Bytes written to the current segment.
    bytes_written: usize,
    /// Configuration.
    config: WALConfig,
}

impl WAL {
    /// Views of the segment buffers.
    pub closed spec fn seg_views(self) -> Seq<Seq<u8>> {
        self.segments@.map(|_i: int, s: Vec<u8>| s@)
    }

    /// All records currently in the log, in append order.
    pub open spec fn records(self) -> Seq<WalRecordModel> {
        segments_records(self.seg_views())
    }

    /// The number of the newest segment.
    pub closed spec fn spec_current_seq(self) -> int {
        self.base_seq + self.segments@.len() - 1
    }

    #[verifier::type_invariant]
    spec fn wal_wf(self) -> bool {
        forall|i: int| 0 <= i < self.seg_views().len() ==> fully_framed(#[trigger] self.seg_views()[i])
    }

    /// Create a new, empty log.
    pub fn create(config: WALConfig) -> (r: WAL)
        ensures
            r.records() =~= Seq::<WalRecordModel>::empty(),
    {
        let mut segments: Vec<Vec<u8>> = Vec::new();
        segments.push(Vec::new());
        let r = WAL { segments, base_seq: 0, bytes_written: 0, config };
        proof {
            assert(r.seg_views().len() == 1);
            assert(r.seg_views()[0] =~= Seq::<u8>::empty());
            assert(partial_frame(r.seg_views()[0]));
            assert(fully_framed(r.seg_views()[0]));
            assert(r.seg_views().last() == r.seg_views()[0]);
            assert(r.seg_views().drop_last() =~= Seq::<Seq<u8>>::empty());
            assert(segments_records(r.seg_views().drop_last()) =~= Seq::<WalRecordModel>::empty());
            assert(spec_scan(r.seg_views().last()) == Some(Seq::<WalRecordModel>::empty()));
        }
        r
    }

    /// Reopen a log from segment buffers read back from storage, oldest
    /// first, numbered from `base_seq`. A trailing partial record in a
    /// segment — the residue of a crash — is discarded; corruption inside a
    /// complete record is refused. The next append begins after the last
    /// intact record.
    pub fn open_segments(seg_bufs: Vec<Vec<u8>>, base_seq: usize, config: WALConfig) -> (r: Result<
        WAL,
        WalError,
    >)
        ensures
            r is Ok <==> forall|i: int|
                0 <= i < seg_bufs@.len() ==> (#[trigger] spec_scan(seg_bufs@[i]@)) is Some,
            match r {
                Ok(w) => {
                    &&& seg_bufs@.len() > 0 ==> w.records() == segments_records(
                        seg_bufs@.map(
                            |_i: int, b: Vec<u8>| b@.subrange(0, spec_scan_len(b@)),
                        ),
                    )
                    &&& seg_bufs@.len() == 0 ==> w.records() =~= Seq::<WalRecordModel>::empty()
                },
                Err(e) => e == WalError::CorruptRecord,
            },
    {
        let n = seg_bufs.len();
        let ghost target = seg_bufs@.map(|_i: int, b: Vec<u8>| b@.subrange(0, spec_scan_len(b@)));
        let mut segments: Vec<Vec<u8>> = Vec::new();
        let mut i: usize = 0;
        while i < n
            invariant
                0 <= i <= n,
                n == seg_bufs@.len(),
                target.len() == n,
                forall|j: int|
                    0 <= j < n ==> (#[trigger] target[j]) == seg_bufs@[j]@.subrange(
                        0,
                        spec_scan_len(seg_bufs@[j]@),
                    ),
                segments@.len() == i,
                forall|j: int| 0 <= j < i ==> (#[trigger] spec_scan(seg_bufs@[j]@)) is Some,
                forall|j: int|
                    0 <= j < i ==> (#[trigger] segments@[j]@) == target[j] && fully_framed(
                        segments@[j]@,
                    ),
            decreases n - i,
        {
            let buf = crate::kv::clone_bytes(&seg_bufs[i]);
            match scan_segment(&buf) {
                Err(e) => {
                    proof {
                        assert(spec_scan(seg_bufs@[i as int]@) is None);
                    }
                    return Err(e);
                },
                Ok((_entries, consumed)) => {
                    let mut buf = buf;
                    let ghost orig = seg_bufs@[i as int]@;
                    buf.truncate(consumed);
                    proof {
                        lemma_scan_truncate(orig);
                        assert(buf@ =~= orig.subrange(0, spec_scan_len(orig)));
                        assert(fully_framed(buf@));
                    }
                    segments.push(buf);
                },
            }
            i = i + 1;
        }
        if segments.len() == 0 {
            segments.push(Vec::new());
            proof {
                assert(segments@[0]@ =~= Seq::<u8>::empty());
                assert(partial_frame(segments@[0]@));
            }
        }
        let last = segments.len() - 1;
        let bytes_written = segments[last].len();
        let w = WAL { segments, base_seq, bytes_written, config };
        proof {
            if n > 0 {
                assert(w.seg_views() =~= target);
            } else {
                assert(w.seg_views().len() == 1);
                assert(w.seg_views()[0] =~= Seq::<u8>::empty());
                assert(partial_frame(w.seg_views()[0]));
                assert(fully_framed(w.seg_views()[0]));
                assert(w.seg_views().last() == w.seg_views()[0]);
                assert(w.seg_views().drop_last() =~= Seq::<Seq<u8>>::empty());
                assert(spec_scan(w.seg_views().last()) == Some(Seq::<WalRecordModel>::empty()));
                assert(segments_records(w.seg_views().drop_last()) =~= Seq::<
                    WalRecordModel,
                >::empty());
                assert(w.records() =~= Seq::<WalRecordModel>::empty());
            }
        }
        Ok(w)
    }

    /// Append a record: frame it and add it to the current segment, rolling
    /// to a new segment once the current one reaches its byte budget.
    /// Returns the payload size in bytes.
    pub fn append(&mut self, entry: WALEntry) -> (r: Result<usize, WalError>)
        ensures
            r is Err <==> enc_record_payload(entry@).len() > u32::MAX,
            match r {
                Ok(n) => n == enc_record_payload(entry@).len() && final(self).records() == old(
                    self,
                ).records().push(entry@),
                Err(e) => e == WalError::RecordTooLarge && final(self).records() == old(
                    self,
                ).records(),
            },
    {
        proof {
            use_type_invariant(&*self);
        }
        let mut payload: Vec<u8> = Vec::new();
        enc_record_payload_exec(&mut payload, &entry);
        if payload.len() as u64 > 0xffff_ffffu64 {
            return Err(WalError::RecordTooLarge);
        }
        let ghost old_views = self.seg_views();
        let mut segments: Vec<Vec<u8>> = Vec::new();
        core::mem::swap(&mut segments, &mut self.segments);
        let mut seg: Vec<u8> = match segments.pop() {
            Some(s) => s,
            None => Vec::new(),
        };
        let ghost popped_views = segments@.map(|_i: int, s: Vec<u8>| s@);
        proof {
            if old_views.len() > 0 {
                assert(popped_views =~= old_views.drop_last());
                assert(seg@ == old_views.last());
                assert(fully_framed(seg@));
            } else {
                assert(popped_views =~= old_views);
                assert(seg@ =~= Seq::<u8>::empty());
                assert(partial_frame(seg@));
                assert(fully_framed(seg@));
            }
            assert(forall|j: int|
                0 <= j < popped_views.len() ==> fully_framed(#[trigger] popped_views[j]));
        }
        let ghost seg_before = seg@;
        crate::codec::enc_u32_exec(&mut seg, payload.len() as u32);
        crate::codec::push_all(&mut seg, &payload);
        proof {
            assert(seg@ =~= seg_before + frame(payload@));
            lemma_scan_append(seg_before, entry@);
        }
        let newlen = seg.len();
        segments.push(seg);
        let rolled = newlen >= self.config.max_file_size && self.base_seq
            < usize::MAX - segments.len();
        if rolled {
            segments.push(Vec::new());
        }
        let ghost appended = seg_before + frame(payload@);
        proof {
            assert(fully_framed(appended));
            assert(partial_frame(Seq::<u8>::empty()));
            assert(fully_framed(Seq::<u8>::empty()));
            assert forall|j: int| 0 <= j < segments@.len() implies fully_framed(
                #[trigger] segments@[j]@,
            ) by {
                if j < popped_views.len() {
                    assert(segments@[j]@ == popped_views[j]);
                } else if j == popped_views.len() {
                    assert(segments@[j]@ == appended);
                } else {
                    assert(segments@[j]@ =~= Seq::<u8>::empty());
                }
            }
        }
        self.segments = segments;
        self.bytes_written = if rolled {
            0
        } else {
            newlen
        };
        proof {
            let new_views = self.seg_views();
            if rolled {
                assert(new_views.last() =~= Seq::<u8>::empty());
                assert(partial_frame(new_views.last()));
                assert(spec_scan(new_views.last()) == Some(Seq::<WalRecordModel>::empty()));
                assert(new_views.drop_last() =~= popped_views.push(appended));
                assert(segments_records(new_views) =~= segments_records(
                    popped_views.push(appended),
                ));
            } else {
                assert(new_views =~= popped_views.push(appended));
            }
            assert(popped_views.push(appended).drop_last() =~= popped_views);
            assert(popped_views.push(appended).last() == appended);
            if old_views.len() > 0 {
                assert(old_views.drop_last().push(seg_before) =~= old_views);
                assert(old_views.drop_last().push(seg_before).drop_last() =~= popped_views);
                assert(segments_records(old_views) == segments_records(popped_views)
                    + spec_scan(seg_before).unwrap());
            } else {
                assert(spec_scan(seg_before).unwrap() =~= Seq::<WalRecordModel>::empty());
                assert(segments_records(old_views) =~= Seq::<WalRecordModel>::empty());
                assert(segments_records(popped_views) =~= Seq::<WalRecordModel>::empty());
                assert(segments_records(old_views) =~= segments_records(popped_views)
                    + spec_scan(seg_before).unwrap());
            }
            assert(segments_records(popped_views.push(appended)) == segments_records(popped_views)
                + spec_scan(seg_before).unwrap().push(entry@));
            assert(segments_records(popped_views) + spec_scan(seg_before).unwrap().push(entry@)
                =~= (segments_records(popped_views) + spec_scan(seg_before).unwrap()).push(
                entry@,
            ));
        }
        Ok(payload.len())
    }

    /// Read all records, in append order, across all segments. The scan
    /// cannot fail: the log's segments are kept fully framed.
    pub fn read_all(&self) -> (r: Vec<WALEntry>)
        ensures
            r@.len() == self.records().len(),
            forall|i: int|
                0 <= i < r@.len() ==> record_abs(#[trigger] r@[i]@) == record_abs(
                    self.records()[i],
                ),
    {
        proof {
            use_type_invariant(&*self);
        }
        let n = self.segments.len();
        let mut out: Vec<WALEntry> = Vec::new();
        let mut i: usize = 0;
        while i < n
            invariant
                0 <= i <= n,
                n == self.seg_views().len(),
                forall|k: int|
                    0 <= k < self.seg_views().len() ==> fully_framed(
                        #[trigger] self.seg_views()[k],
                    ),
                out@.len() == segments_records(self.seg_views().subrange(0, i as int)).len(),
                forall|k: int|
                    0 <= k < out@.len() ==> record_abs(#[trigger] out@[k]@) == record_abs(
                        segments_records(self.seg_views().subrange(0, i as int))[k],
                    ),
            decreases n - i,
        {
            let ghost prefix = self.seg_views().subrange(0, i as int);
            match scan_segment(&self.segments[i]) {
                Err(_) => {
                    proof {
                        assert(fully_framed(self.seg_views()[i as int]));
                        assert(false);
                    }
                },
                Ok((mut entries, _consumed)) => {
                    let ghost evs = entries@;
                    let ghost out_before = out@;
                    out.append(&mut entries);
                    proof {
                        let next = self.seg_views().subrange(0, i + 1 as int);
                        assert(next.drop_last() =~= prefix);
                        assert(next.last() == self.seg_views()[i as int]);
                        assert(segments_records(next) == segments_records(prefix) + spec_scan(
                            self.seg_views()[i as int],
                        ).unwrap());
                        assert(out@ == out_before + evs);
                    }
                },
            }
            i = i + 1;
        }
        proof {
            assert(self.seg_views().subrange(0, n as int) =~= self.seg_views());
        }
        out
    }

    /// Drop leading whole segments all of whose records lie strictly below
    /// the given index; the caller guarantees they are covered by a persisted
    /// snapshot. The kept records are exactly a suffix of the old ones.
    pub fn compact(&mut self, before_index: usize)
        ensures
            exists|k: int|
                {
                    &&& 0 <= k <= old(self).records().len()
                    &&& final(self).records() == old(self).records().skip(k)
                    &&& forall|i: int|
                        0 <= i < k ==> record_below(#[trigger] old(self).records()[i], before_index)
                },
    {
        proof {
            use_type_invariant(&*self);
        }
        let ghost old_views = self.seg_views();
        let mut segs: Vec<Vec<u8>> = Vec::new();
        core::mem::swap(&mut segs, &mut self.segments);
        let ghost segs_views = segs@.map(|_i: int, s: Vec<u8>| s@);
        proof {
            assert(segs_views =~= old_views);
        }
        let n = segs.len();
        let mut drop_count: usize = 0;
        while drop_count < n
            invariant
                0 <= drop_count <= n,
                n == segs_views.len(),
                segs@.len() == n,
                forall|k: int| 0 <= k < n ==> (#[trigger] segs@[k]@) == segs_views[k],
                segs_views == old_views,
                forall|k: int| 0 <= k < segs_views.len() ==> fully_framed(#[trigger] segs_views[k]),
                forall|j: int, i: int|
                    0 <= j < drop_count && 0 <= i < spec_scan(segs_views[j]).unwrap().len()
                        ==> record_below(
                        #[trigger] spec_scan(segs_views[j]).unwrap()[i],
                        before_index,
                    ),
            decreases n - drop_count,
        {
            if drop_count == n - 1 {
                // always keep the current segment
                break ;
            }
            match scan_segment(&segs[drop_count]) {
                Err(_) => {
                    proof {
                        assert(fully_framed(segs_views[drop_count as int]));
                        assert(false);
                    }
                },
                Ok((entries, _consumed)) => {
                    let mut all_below = true;
                    let m = entries.len();
                    let mut j: usize = 0;
                    while j < m
                        invariant
                            0 <= j <= m,
                            m == entries@.len(),
                            entries@.len() == spec_scan(segs_views[drop_count as int]).unwrap().len(),
                            drop_count < segs_views.len(),
                            forall|i: int|
                                0 <= i < entries@.len() ==> record_abs(#[trigger] entries@[i]@)
                                    == record_abs(
                                    spec_scan(segs_views[drop_count as int]).unwrap()[i],
                                ),
                            all_below ==> forall|i: int|
                                0 <= i < j ==> record_below(
                                    #[trigger] spec_scan(segs_views[drop_count as int]).unwrap()[i],
                                    before_index,
                                ),
                        decreases m - j,
                    {
                        let below = entry_below(&entries[j], before_index);
                        proof {
                            lemma_record_below_abs(
                                entries@[j as int]@,
                                spec_scan(segs_views[drop_count as int]).unwrap()[j as int],
                                before_index,
                            );
                        }
                        if !below {
                            all_below = false;
                        }
                        j = j + 1;
                    }
                    if !all_below {
                        break ;
                    }
                },
            }
            drop_count = drop_count + 1;
        }
        let mut rest = segs.split_off(drop_count);
        proof {
            assert(rest@.map(|_i: int, s: Vec<u8>| s@) =~= segs_views.skip(drop_count as int));
        }
        if rest.len() == 0 {
            rest.push(Vec::new());
        }
        let ghost rest_views = rest@.map(|_i: int, s: Vec<u8>| s@);
        proof {
            assert(partial_frame(Seq::<u8>::empty()));
            assert forall|k: int| 0 <= k < rest_views.len() implies fully_framed(
                #[trigger] rest_views[k],
            ) by {
                if drop_count < n {
                    assert(rest_views[k] == segs_views[drop_count + k]);
                } else {
                    assert(rest_views[k] =~= Seq::<u8>::empty());
                }
            }
        }
        self.segments = rest;
        let new_base = if self.base_seq <= usize::MAX - drop_count {
            self.base_seq + drop_count
        } else {
            self.base_seq
        };
        self.base_seq = new_base;
        proof {
            lemma_segments_records_split(old_views, drop_count as int);
            lemma_segments_records_below(
                old_views.subrange(0, drop_count as int),
                before_index,
            );
            let k = segments_records(old_views.subrange(0, drop_count as int)).len() as int;
            if drop_count < n {
                assert(self.seg_views() =~= old_views.skip(drop_count as int));
                assert(self.records() =~= old(self).records().skip(k));
            } else {
                // every segment was dropped: the log is empty again
                assert(old_views.subrange(0, drop_count as int) =~= old_views);
                assert(old_views.skip(drop_count as int) =~= Seq::<Seq<u8>>::empty());
                assert(self.seg_views().len() == 1);
                assert(self.seg_views()[0] =~= Seq::<u8>::empty());
                assert(partial_frame(self.seg_views()[0]));
                assert(self.seg_views().drop_last() =~= Seq::<Seq<u8>>::empty());
                assert(self.records() =~= old(self).records().skip(k));
            }
            assert(0 <= k <= old(self).records().len());
            assert forall|i: int| 0 <= i < k implies record_below(
                #[trigger] old(self).records()[i],
                before_index,
            ) by {
                assert(old(self).records()[i] == segments_records(
                    old_views.subrange(0, drop_count as int),
                )[i]);
            }
        }
    }

    /// How many segment buffers the log holds.
    pub fn segment_count(&self) -> (r: usize)
        ensures
            r == self.seg_views().len(),
    {
        self.segments.len()
    }

    /// One segment's bytes, for the driver to write out.
    pub fn segment_bytes(&self, i: usize) -> (r: &Vec<u8>)
        requires
            i < self.seg_views().len(),
        ensures
            r@ == self.seg_views()[i as int],
    {
        &self.segments[i]
    }

    /// The number of the oldest segment held.
    pub fn base_seq(&self) -> (r: usize)
    {
        self.base_seq
    }

    /// The number of the newest segment, for naming segment files.
    pub fn current_seq(&self) -> (r: usize)
        ensures
            r as int == self.spec_current_seq() || r == usize::MAX || self.seg_views().len() == 0,
    {
        if self.segments.len() == 0 {
            self.base_seq
        } else if self.base_seq <= usize::MAX - (self.segments.len() - 1) {
            self.base_seq + (self.segments.len() - 1)
        } else {
            usize::MAX
        }
    }
}

/// Whether a record's index lies strictly below a compaction bound. A
/// metadata record never counts as below: it may hold the only durable copy
/// of the current term and vote, and dropping it would let a restarted
/// replica vote twice in one term.
pub open spec fn record_below(m: WalRecordModel, before_index: usize) -> bool {
    match m {
        WalRecordModel::LogEntry { index, .. } => index < before_index,
        WalRecordModel::Snapshot { index, .. } => index < before_index,
        WalRecordModel::Metadata { .. } => false,
        WalRecordModel::Commit { index } => index < before_index,
    }
}

/// Executable check of `record_below`.
pub fn entry_below(e: &WALEntry, before_index: usize) -> (r: bool)
    ensures
        r == record_below(e@, before_index),
{
    match e {
        WALEntry::LogEntry { index, .. } => *index < before_index,
        WALEntry::Snapshot { index, .. } => *index < before_index,
        WALEntry::Metadata { .. } => false,
        WALEntry::Commit { index } => *index < before_index,
    }
}

/// `record_below` only reads fields that the abstraction keeps.
proof fn lemma_record_below_abs(m1: WalRecordModel, m2: WalRecordModel, before_index: usize)
    requires
        record_abs(m1) == record_abs(m2),
    ensures
        record_below(m1, before_index) == record_below(m2, before_index),
{
}

/// If every segment's records are below the bound, so is their concatenation.
proof fn lemma_segments_records_below(segs: Seq<Seq<u8>>, before_index: usize)
    requires
        forall|j: int, i: int|
            0 <= j < segs.len() && 0 <= i < spec_scan(segs[j]).unwrap().len() ==> record_below(
                #[trigger] spec_scan(segs[j]).unwrap()[i],
                before_index,
            ),
    ensures
        forall|i: int|
            0 <= i < segments_records(segs).len() ==> record_below(
                #[trigger] segments_records(segs)[i],
                before_index,
            ),
    decreases segs.len(),
{
    if segs.len() > 0 {
        let d = segs.drop_last();
        assert(forall|j: int| 0 <= j < d.len() ==> d[j] == segs[j]);
        lemma_segments_records_below(d, before_index);
        let tailrec = match spec_scan(segs.last()) {
            Some(ms) => ms,
            None => Seq::<WalRecordModel>::empty(),
        };
        assert forall|i: int| 0 <= i < segments_records(segs).len() implies record_below(
            #[trigger] segments_records(segs)[i],
            before_index,
        ) by {
            if i < segments_records(d).len() {
                assert(segments_records(segs)[i] == segments_records(d)[i]);
            } else {
                assert(segments_records(segs)[i] == tailrec[i - segments_records(d).len()]);
                if spec_scan(segs.last()) is Some {
                    assert(record_below(
                        spec_scan(segs[segs.len() - 1]).unwrap()[i - segments_records(d).len()],
                        before_index,
                    ));
                }
            }
        }
    }
}


// ---------------------------------------------------------------------------
// Snapshots.
// ---------------------------------------------------------------------------
/// Configuration of the snapshot store.
#[derive(Debug, Clone)]
pub struct SnapshotConfig {
    /// How many applied entries between snapshots.
    pub snapshot_interval: usize,
    /// How many snapshots to retain; older ones are deleted, oldest first.
    pub keep_snapshots: usize,
}

impl Default for SnapshotConfig {
    fn default() -> (r: SnapshotConfig)
        ensures
            r.snapshot_interval == 10000,
            r.keep_snapshots == 3,
    {
        SnapshotConfig { snapshot_interval: 10000, keep_snapshots: 3 }
    }
}

/// A full-state capture: the result of applying the log through `last_index`.
#[derive(Debug)]
pub struct Snapshot {
    /// Last log index the state covers.
    pub last_index: usize,
    /// Term of that entry.
    pub last_term: u64,
    /// The captured state.
    pub state: State,
    /// When the capture was taken (supplied by the embedding driver).
    pub timestamp: u64,
}

impl View for Snapshot {
    type V = crate::codec::SnapshotModel;

    open spec fn view(&self) -> crate::codec::SnapshotModel {
        crate::codec::SnapshotModel {
            last_index: self.last_index,
            last_term: self.last_term,
            state: self.state.repr(),
            timestamp: self.timestamp,
        }
    }
}

impl Snapshot {
    /// The snapshot's file bytes: its canonical encoding.
    pub fn to_bytes(&self) -> (r: Vec<u8>)
        ensures
            r@ == crate::codec::enc_snapshot(self@),
    {
        let mut out: Vec<u8> = Vec::new();
        crate::codec::enc_snapshot_exec(&mut out, self);
        out
    }

    /// Decode a snapshot from file bytes; the recovered state means the same
    /// as what was encoded.
    pub fn from_bytes(buf: &Vec<u8>) -> (r: Option<Snapshot>)
        ensures
            match r {
                Some(v) => crate::codec::dec_snapshot(buf@) matches Some((m, _c))
                    && v.last_index == m.last_index && v.last_term == m.last_term && v.timestamp
                    == m.timestamp && v.state@ == m.state.model(),
                None => crate::codec::dec_snapshot(buf@) is None,
            },
    {
        proof {
            assert(buf@.skip(0) =~= buf@);
        }
        match crate::codec::dec_snapshot_exec(buf, 0) {
            None => None,
            Some((s, _c)) => Some(s),
        }
    }
}

/// Bookkeeping of the snapshot store: which snapshot indexes exist, which is
/// the latest, and which fall out of retention. Reading and writing the
/// snapshot files themselves is the embedding driver's job.
pub struct SnapshotManager {
    /// Snapshot indexes currently retained, in ascending order.
    indexes: Vec<usize>,
    /// Configuration.
    config: SnapshotConfig,
}

impl SnapshotManager {
    pub closed spec fn spec_indexes(self) -> Seq<usize> {
        self.indexes@
    }

    pub closed spec fn spec_keep(self) -> usize {
        self.config.keep_snapshots
    }

    #[verifier::type_invariant]
    spec fn ordered(self) -> bool {
        forall|i: int, j: int|
            0 <= i < j < self.indexes@.len() ==> self.indexes@[i] < self.indexes@[j]
    }

    pub fn new(config: SnapshotConfig) -> (r: SnapshotManager)
        ensures
            r.spec_indexes().len() == 0,
    {
        SnapshotManager { indexes: Vec::new(), config }
    }

    /// The latest snapshot's index, if any snapshot exists.
    pub fn latest(&self) -> (r: Option<usize>)
        ensures
            match r {
                Some(x) => self.spec_indexes().len() > 0 && x == self.spec_indexes().last(),
                None => self.spec_indexes().len() == 0,
            },
    {
        let n = self.indexes.len();
        if n == 0 {
            None
        } else {
            Some(self.indexes[n - 1])
        }
    }

    /// Record a saved snapshot and return the indexes that fall out of the
    /// retention window, oldest first: their files are to be deleted. The
    /// removed list is exactly the dropped oldest prefix; what stays is the
    /// unchanged newest suffix, ending in the new index.
    pub fn record_saved(&mut self, last_index: usize) -> (removed: Vec<usize>)
        requires
            old(self).spec_indexes().len() == 0 || last_index > old(self).spec_indexes().last(),
        ensures
            final(self).spec_indexes().len() <= if final(self).spec_keep() > 0 {
                final(self).spec_keep() as int
            } else {
                1int
            },
            final(self).spec_indexes().len() > 0,
            final(self).spec_indexes().last() == last_index,
            ({
                let all = old(self).spec_indexes().push(last_index);
                &&& removed@ + final(self).spec_indexes() == all
                &&& removed@ == all.subrange(0, removed@.len() as int)
                &&& final(self).spec_indexes() == all.skip(removed@.len() as int)
            }),
    {
        proof {
            use_type_invariant(&*self);
        }
        let mut ix: Vec<usize> = Vec::new();
        core::mem::swap(&mut ix, &mut self.indexes);
        let ghost before = ix@;
        ix.push(last_index);
        proof {
            assert(ix@ == old(self).spec_indexes().push(last_index));
        }
        proof {
            assert forall|i: int, j: int| 0 <= i < j < ix@.len() implies ix@[i] < ix@[j] by {
                if j == ix@.len() - 1 {
                    assert(ix@[i] == before[i]);
                    assert(before[i] <= before[before.len() - 1]) by {
                        if i < before.len() - 1 {
                            assert(before[i] < before[before.len() - 1]);
                        }
                    }
                }
            }
        }
        let keep = if self.config.keep_snapshots == 0 {
            1
        } else {
            self.config.keep_snapshots
        };
        let ghost all = ix@;
        let mut removed: Vec<usize> = Vec::new();
        while ix.len() > keep
            invariant
                keep >= 1,
                ix@.len() >= 1,
                forall|i: int, j: int| 0 <= i < j < ix@.len() ==> ix@[i] < ix@[j],
                ix@.last() == last_index,
                removed@ + ix@ == all,
                removed@ == all.subrange(0, removed@.len() as int),
            decreases ix@.len(),
        {
            let ghost pre = ix@;
            let ghost rpre = removed@;
            let oldest = ix.remove(0);
            removed.push(oldest);
            proof {
                assert(ix@ =~= pre.skip(1));
                assert forall|i: int, j: int| 0 <= i < j < ix@.len() implies ix@[i] < ix@[j] by {
                    assert(ix@[i] == pre[i + 1]);
                    assert(ix@[j] == pre[j + 1]);
                }
                assert(ix@.last() == pre.last());
                assert(removed@ + ix@ =~= all);
                assert(removed@ =~= all.subrange(0, removed@.len() as int));
            }
        }
        self.indexes = ix;
        proof {
            assert(self.indexes@ =~= all.skip(removed@.len() as int));
        }
        removed
    }
}

} // verus!
