use vstd::prelude::*;
use crate::envelope::{
    Document, FieldSpec, Record, all_slots_ok, fields_model, first_slot_error, from_envelope,
    record_decoded,
};
use crate::error::Error;

verus! {

/// One frame of a streamed query response: a matching document, a count of
/// skipped results, or both, with the time of the read.
#[derive(Debug, PartialEq)]
pub struct Frame {
    pub document: Option<Document>,
    pub read_time: Option<String>,
    pub skipped_results: Option<u64>,
}

/// `a + b`, held at `u64::MAX`.
pub open spec fn saturating_sum(a: u64, b: u64) -> u64 {
    if a + b > u64::MAX {
        u64::MAX
    } else {
        (a + b) as u64
    }
}

/// The skip count that a frame adds.
pub open spec fn skip_of(f: Frame) -> u64 {
    match f.skipped_results {
        Some(n) => n,
        None => 0,
    }
}

/// The skip counts of `frames`, summed and held at `u64::MAX`.
pub open spec fn skip_total(frames: Seq<Frame>) -> u64
    decreases frames.len(),
{
    if frames.len() == 0 {
        0
    } else {
        saturating_sum(skip_total(frames.drop_last()), skip_of(frames.last()))
    }
}

/// The documents that `frames` carry, in arrival order.
pub open spec fn documents_of(frames: Seq<Frame>) -> Seq<Document>
    decreases frames.len(),
{
    if frames.len() == 0 {
        Seq::empty()
    } else {
        match frames.last().document {
            Some(d) => documents_of(frames.drop_last()).push(d),
            None => documents_of(frames.drop_last()),
        }
    }
}

/// The state of a forward-only pass over a query response: the skip count
/// so far, the latest read time, and the error that ended the pass, if one
/// did.
#[derive(Debug)]
pub struct ResultDecoder {
    pub skipped: u64,
    pub read_time: Option<String>,
    pub failed: Option<Error>,
}

impl ResultDecoder {
    /// A decoder that has seen no frame.
    pub fn new() -> (r: ResultDecoder)
        ensures
            r.skipped == 0,
            r.read_time is None,
            r.failed is None,
    {
        ResultDecoder { skipped: 0, read_time: None, failed: None }
    }

    /// Takes the next frame. Its document, if any, is read with `shape` and
    /// handed back; its skip count is added; its read time becomes the
    /// latest. A document that cannot be read ends the pass: its error is
    /// returned, kept, and returned again for every later frame, and nothing
    /// else changes.
    pub fn feed(&mut self, frame: &Frame, shape: &Vec<FieldSpec>) -> (r: Result<
        Option<Record>,
        Error,
    >)
        ensures
            old(self).failed matches Some(e0) ==> r == Err::<Option<Record>, Error>(e0)
                && *final(self) == *old(self),
            old(self).failed is None ==> {
                &&& match r {
                    Ok(None) => frame.document is None,
                    Ok(Some(rec)) => frame.document matches Some(d) && record_decoded(
                        fields_model(d.fields@),
                        shape@,
                        rec@,
                    ),
                    Err(e) => frame.document matches Some(d) && first_slot_error(
                        fields_model(d.fields@),
                        shape@,
                        e,
                    ),
                }
                &&& r is Ok <==> (frame.document matches Some(d) ==> all_slots_ok(
                    fields_model(d.fields@),
                    shape@,
                ))
                &&& r is Ok ==> final(self).skipped == saturating_sum(
                    old(self).skipped,
                    skip_of(*frame),
                ) && final(self).failed is None && final(self).read_time == match frame.read_time {
                    Some(t) => Some(t),
                    None => old(self).read_time,
                }
                &&& r matches Err(e) ==> final(self).failed == Some(e) && final(self).skipped
                    == old(self).skipped && final(self).read_time == old(self).read_time
            },
    {
        if let Some(e) = &self.failed {
            return Err(e.duplicate());
        }
        let out = match &frame.document {
            Some(d) => match from_envelope(d, shape) {
                Ok(rec) => Some(rec),
                Err(e) => {
                    self.failed = Some(e.duplicate());
                    return Err(e);
                },
            },
            None => None,
        };
        if let Some(n) = frame.skipped_results {
            self.skipped = if self.skipped > u64::MAX - n {
                u64::MAX
            } else {
                self.skipped + n
            };
        }
        match &frame.read_time {
            Some(t) => {
                self.read_time = Some(t.clone());
            },
            None => {},
        }
        Ok(out)
    }
}

/// `recs` are the records of the documents of `frames`, in arrival order,
/// every one of which could be read, and `skipped` is their skip total.
pub open spec fn stream_decoded(
    frames: Seq<Frame>,
    shape: Seq<FieldSpec>,
    recs: Seq<Record>,
    skipped: u64,
) -> bool {
    &&& recs.len() == documents_of(frames).len()
    &&& forall|k: int|
        0 <= k < recs.len() ==> #[trigger] record_decoded(
            fields_model(documents_of(frames)[k].fields@),
            shape,
            recs[k]@,
        )
    &&& forall|k: int|
        0 <= k < recs.len() ==> #[trigger] all_slots_ok(
            fields_model(documents_of(frames)[k].fields@),
            shape,
        )
    &&& skipped == skip_total(frames)
}

/// Reads a whole query response in one pass. It gives the records of the
/// documents in arrival order and the skip total, up to the first document
/// that cannot be read; that document's error, if there is one, comes third,
/// and the frames after it are not read.
pub fn decode_stream(frames: &Vec<Frame>, shape: &Vec<FieldSpec>) -> (r: (
    Vec<Record>,
    u64,
    Option<Error>,
))
    ensures
        match r.2 {
            None => stream_decoded(frames@, shape@, r.0@, r.1),
            Some(e) => exists|i: int|
                0 <= i < frames@.len() && stream_decoded(
                    #[trigger] frames@.subrange(0, i),
                    shape@,
                    r.0@,
                    r.1,
                ) && (frames@[i].document matches Some(d) && first_slot_error(
                    fields_model(d.fields@),
                    shape@,
                    e,
                )),
        },
        r.2 is None <==> forall|k: int|
            0 <= k < documents_of(frames@).len() ==> #[trigger] all_slots_ok(
                fields_model(documents_of(frames@)[k].fields@),
                shape@,
            ),
{
    let mut decoder = ResultDecoder::new();
    let mut recs: Vec<Record> = Vec::new();
    let mut i: usize = 0;
    while i < frames.len()
        invariant
            i <= frames@.len(),
            decoder.failed is None,
            stream_decoded(frames@.subrange(0, i as int), shape@, recs@, decoder.skipped),
        decreases frames@.len() - i,
    {
        let ghost pre = frames@.subrange(0, i as int);
        let ghost post = frames@.subrange(0, i + 1);
        proof {
            assert(post.drop_last() =~= pre);
            assert(post.last() == frames@[i as int]);
        }
        let step = decoder.feed(&frames[i], shape);
        match step {
            Ok(Some(rec)) => {
                recs.push(rec);
            },
            Ok(None) => {},
            Err(e) => {
                proof {
                    lemma_documents_prefix(frames@, i as int + 1);
                    assert(documents_of(post) == documents_of(pre).push(
                        frames@[i as int].document->0,
                    ));
                    let k = documents_of(post).len() - 1;
                    assert(documents_of(frames@)[k] == documents_of(post)[k]);
                    assert(stream_decoded(frames@.subrange(0, i as int), shape@, recs@, decoder.skipped));
                }
                return (recs, decoder.skipped, Some(e));
            },
        }
        i = i + 1;
    }
    proof {
        assert(frames@.subrange(0, i as int) =~= frames@);
    }
    (recs, decoder.skipped, None)
}

/// The documents of a prefix of `frames` lead the documents of `frames`.
proof fn lemma_documents_prefix(frames: Seq<Frame>, n: int)
    requires
        0 <= n <= frames.len(),
    ensures
        documents_of(frames.subrange(0, n)).len() <= documents_of(frames).len(),
        forall|k: int|
            0 <= k < documents_of(frames.subrange(0, n)).len() ==> documents_of(frames)[k]
                == #[trigger] documents_of(frames.subrange(0, n))[k],
    decreases frames.len() - n,
{
    if n < frames.len() {
        lemma_documents_prefix(frames, n + 1);
        let a = frames.subrange(0, n);
        let b = frames.subrange(0, n + 1);
        assert(b.drop_last() =~= a);
        assert forall|k: int| 0 <= k < documents_of(a).len() implies documents_of(frames)[k]
            == #[trigger] documents_of(a)[k] by {
            assert(documents_of(b)[k] == documents_of(a)[k]);
        }
    } else {
        assert(frames.subrange(0, n) =~= frames);
    }
}

} // verus!
