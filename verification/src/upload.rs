//! Taking in a song and having it analyzed.

use vstd::prelude::*;
use vstd::utf8::encode_utf8;
use vstd::utf8::valid_utf8;

use crate::error::UploadError;
use crate::loops::loops_in;
use crate::loops::loops_in_output;
use crate::loops::numerals;
use crate::loops::output_is_read_as_text;
use crate::loops::read_output;
use crate::loops::Loop;

verus! {

/// Bytes that one upload may have.
pub const UPLOAD_LIMIT: u64 = 15 * 1024 * 1024;

/// Seconds within which an upload must have arrived.
pub const UPLOAD_TIMEOUT_SECS: u64 = 30;

/// How many songs are taken in and analyzed at a time.
pub const ANALYZE_LIMIT: usize = 10;

/// The program that finds the loops.
pub const ANALYZER: &'static str = "pymusiclooper";

/// An argument for the program that finds the loops.
#[derive(Debug)]
pub enum AnalyzerArg {
    Text(&'static str),
    /// The path of the upload.
    Upload,
}

/// The arguments with which the program prints all loops of an upload in seconds.
pub fn analyzer_args() -> (args: Vec<AnalyzerArg>)
    ensures
        args@ == seq![
            AnalyzerArg::Text("export-points"),
            AnalyzerArg::Text("--path"),
            AnalyzerArg::Upload,
            AnalyzerArg::Text("--alt-export-top"),
            AnalyzerArg::Text("-1"),
            AnalyzerArg::Text("--fmt"),
            AnalyzerArg::Text("SECONDS"),
        ],
{
    let mut args: Vec<AnalyzerArg> = Vec::new();
    args.push(AnalyzerArg::Text("export-points"));
    args.push(AnalyzerArg::Text("--path"));
    args.push(AnalyzerArg::Upload);
    args.push(AnalyzerArg::Text("--alt-export-top"));
    args.push(AnalyzerArg::Text("-1"));
    args.push(AnalyzerArg::Text("--fmt"));
    args.push(AnalyzerArg::Text("SECONDS"));
    args
}

/// Turns an upload away whose announced size is over the limit.
pub fn check_size_hint(lower: u64, upper: Option<u64>) -> (result: Result<(), UploadError>)
    ensures
        result is Err <==> lower > 15 * 1024 * 1024 || (upper matches Some(most) && most > 15 * 1024
            * 1024),
        result == match upper {
            Some(most) if most > UPLOAD_LIMIT => Err::<(), UploadError>(UploadError::TooBig(most)),
            _ => if lower > UPLOAD_LIMIT {
                Err::<(), UploadError>(UploadError::TooBig(lower))
            } else {
                Ok::<(), UploadError>(())
            },
        },
{
    if let Some(upper) = upper {
        if upper > UPLOAD_LIMIT {
            return Err(UploadError::TooBig(upper));
        }
    }
    if lower > UPLOAD_LIMIT {
        return Err(UploadError::TooBig(lower));
    }
    Ok(())
}

/// What a client is told of an analyzed song.
#[derive(Debug)]
pub struct AnalyzeResult {
    pub loops: Vec<Loop>,
    pub id: usize,
}

/// Where the analysis of a song stands.
#[derive(Debug, Clone, Copy, PartialEq, Eq, Structural)]
pub enum Stage {
    /// The file for the upload is being created.
    Creating,
    /// The next part of the upload is awaited.
    Receiving,
    /// A part of the upload is being written.
    Writing,
    /// All has been written and is on its way to the disk.
    Flushing,
    /// The analyzer is at work.
    Analyzing,
    /// The client has its answer.
    Finished,
}

/// What happens while a song is taken in and analyzed.
#[derive(Debug)]
pub enum UploadEvent {
    Created,
    CreateFailed,
    /// A part of the upload has come, of so many bytes.
    Chunk(usize),
    /// The upload broke off.
    StreamFailed,
    /// The upload is complete.
    StreamEnded,
    Written,
    WriteFailed,
    /// The file has been flushed, with or without success.
    Flushed,
    /// The time for the upload is over.
    TimedOut,
    AnalyzerNotStarted,
    AnalyzerEnded { stdout: Vec<u8>, success: bool },
}

/// What becomes of the file that holds the upload.
#[derive(Debug, Clone, Copy, PartialEq, Eq, Structural)]
pub enum FileFate {
    /// There is none.
    Absent,
    Delete,
    Keep,
}

/// What to do next.
#[derive(Debug)]
pub enum UploadAction {
    /// Await the next part of the upload.
    Receive,
    /// Write the part that has come.
    Write,
    /// Flush and close the file.
    Flush,
    RunAnalyzer,
    /// Answer the client.
    Finish { result: Result<AnalyzeResult, UploadError>, file: FileFate },
}

/// [`AnalyzeResult`] as the contracts speak of it: the numerals of the loops, and the number
/// of the upload.
pub struct Answer {
    pub loops: Seq<Seq<Seq<char>>>,
    pub id: usize,
}

/// [`UploadAction`] as the contracts speak of it.
pub enum Step {
    Receive,
    Write,
    Flush,
    RunAnalyzer,
    Finish { result: Result<Answer, UploadError>, file: FileFate },
}

impl View for AnalyzeResult {
    type V = Answer;

    open spec fn view(&self) -> Answer {
        Answer { loops: numerals(self.loops@), id: self.id }
    }
}

impl View for UploadAction {
    type V = Step;

    open spec fn view(&self) -> Step {
        match self {
            UploadAction::Receive => Step::Receive,
            UploadAction::Write => Step::Write,
            UploadAction::Flush => Step::Flush,
            UploadAction::RunAnalyzer => Step::RunAnalyzer,
            UploadAction::Finish { result: Ok(answer), file } => Step::Finish {
                result: Ok(answer@),
                file: *file,
            },
            UploadAction::Finish { result: Err(e), file } => Step::Finish {
                result: Err(*e),
                file: *file,
            },
        }
    }
}

/// How far the analysis of a song has come.
pub struct Progress {
    pub id: usize,
    pub stage: Stage,
    /// Bytes that have come.
    pub received: nat,
}

/// An event that can happen at this point.
pub open spec fn expected(p: Progress, event: UploadEvent) -> bool {
    match event {
        UploadEvent::Created | UploadEvent::CreateFailed => p.stage == Stage::Creating,
        UploadEvent::Chunk(len) => p.stage == Stage::Receiving && p.received + len <= u64::MAX,
        UploadEvent::StreamFailed | UploadEvent::StreamEnded => p.stage == Stage::Receiving,
        UploadEvent::Written | UploadEvent::WriteFailed => p.stage == Stage::Writing,
        UploadEvent::Flushed => p.stage == Stage::Flushing,
        UploadEvent::TimedOut => p.stage == Stage::Receiving || p.stage == Stage::Writing || p.stage
            == Stage::Flushing,
        UploadEvent::AnalyzerNotStarted | UploadEvent::AnalyzerEnded { .. } => p.stage
            == Stage::Analyzing,
    }
}

/// Nothing more than an answer to the client is left to do.
pub open spec fn ended(p: Progress, result: Result<Answer, UploadError>, file: FileFate) -> (
    Progress,
    Step,
) {
    (Progress { stage: Stage::Finished, ..p }, Step::Finish { result, file })
}

/// What an event leads to.
pub open spec fn advanced(p: Progress, event: UploadEvent) -> (Progress, Step) {
    match event {
        UploadEvent::Created => (Progress { stage: Stage::Receiving, ..p }, Step::Receive),
        UploadEvent::CreateFailed => ended(p, Err(UploadError::Internal), FileFate::Absent),
        UploadEvent::Chunk(len) => {
            let received = p.received + len as nat;
            if received > UPLOAD_LIMIT {
                ended(
                    Progress { received, ..p },
                    Err(UploadError::TooBig(received as u64)),
                    FileFate::Delete,
                )
            } else {
                (Progress { stage: Stage::Writing, received, ..p }, Step::Write)
            }
        },
        UploadEvent::Written => (Progress { stage: Stage::Receiving, ..p }, Step::Receive),
        UploadEvent::StreamEnded => (Progress { stage: Stage::Flushing, ..p }, Step::Flush),
        UploadEvent::Flushed => (Progress { stage: Stage::Analyzing, ..p }, Step::RunAnalyzer),
        UploadEvent::StreamFailed
        | UploadEvent::WriteFailed
        | UploadEvent::AnalyzerNotStarted => ended(
            p,
            Err(UploadError::Internal),
            FileFate::Delete,
        ),
        UploadEvent::TimedOut => ended(p, Err(UploadError::Timeout), FileFate::Delete),
        UploadEvent::AnalyzerEnded { stdout, success } => match loops_in_output(stdout@, success) {
            Some(loops) => ended(p, Ok(Answer { loops, id: p.id }), FileFate::Keep),
            None => ended(p, Err(UploadError::Internal), FileFate::Delete),
        },
    }
}

/// Where the analysis of a song starts.
pub open spec fn started(id: usize) -> Progress {
    Progress { id, stage: Stage::Creating, received: 0 }
}

/// How far events lead.
pub open spec fn reached(id: usize, events: Seq<UploadEvent>) -> Progress
    decreases events.len(),
{
    if events.len() == 0 {
        started(id)
    } else {
        advanced(reached(id, events.drop_last()), events.last()).0
    }
}

/// Events that can happen one after the other.
pub open spec fn possible(id: usize, events: Seq<UploadEvent>) -> bool
    decreases events.len(),
{
    events.len() > 0 ==> {
        &&& possible(id, events.drop_last())
        &&& expected(reached(id, events.drop_last()), events.last())
    }
}

/// The bytes that come with events.
pub open spec fn bytes_in(events: Seq<UploadEvent>) -> nat
    decreases events.len(),
{
    if events.len() == 0 {
        0
    } else {
        let before = bytes_in(events.drop_last());
        match events.last() {
            UploadEvent::Chunk(len) => before + len as nat,
            _ => before,
        }
    }
}

/// All bytes are counted, and no more than the limit is ever accepted: whatever has happened,
/// as long as the client has no answer, the upload is within the limit.
pub proof fn upload_stays_within_limit(id: usize, events: Seq<UploadEvent>)
    requires
        possible(id, events),
    ensures
        reached(id, events).id == id,
        reached(id, events).received == bytes_in(events),
        reached(id, events).stage != Stage::Finished ==> bytes_in(events) <= UPLOAD_LIMIT,
    decreases events.len(),
{
    if events.len() > 0 {
        upload_stays_within_limit(id, events.drop_last());
    }
}

/// The client is told that the upload is too big exactly when the part that has just come
/// takes it over the limit, and is told the bytes that came.
pub proof fn too_big_means_over_limit(id: usize, events: Seq<UploadEvent>, event: UploadEvent)
    requires
        possible(id, events.push(event)),
    ensures
        ({
            let step = advanced(reached(id, events), event).1;
            let bytes = bytes_in(events.push(event));
            &&& step matches Step::Finish { result: Err(UploadError::TooBig(n)), file } ==> n
                == bytes && bytes > UPLOAD_LIMIT
            &&& bytes > UPLOAD_LIMIT ==> step == (Step::Finish {
                result: Err::<Answer, UploadError>(UploadError::TooBig(bytes as u64)),
                file: FileFate::Delete,
            })
        }),
{
    assert(events.push(event).drop_last() =~= events);
    upload_stays_within_limit(id, events);
}

/// The file outlives the request exactly when the client gets the loops, under the number of
/// the upload; a file that was created and does not is deleted.
pub proof fn file_is_kept_on_success_only(id: usize, events: Seq<UploadEvent>, event: UploadEvent)
    requires
        possible(id, events.push(event)),
    ensures
        advanced(reached(id, events), event).1 matches Step::Finish { result, file } ==> {
            &&& file == FileFate::Keep <==> result is Ok
            &&& file == FileFate::Absent <==> event is CreateFailed
            &&& result matches Ok(answer) ==> answer.id == id
        },
{
    assert(events.push(event).drop_last() =~= events);
    upload_stays_within_limit(id, events);
}

/// The answer is the last thing that happens.
pub proof fn nothing_follows_the_answer(id: usize, events: Seq<UploadEvent>, event: UploadEvent)
    requires
        possible(id, events),
    ensures
        reached(id, events).stage == Stage::Finished ==> !possible(id, events.push(event)),
        possible(id, events.push(event)) ==> (advanced(reached(id, events), event).1 is Finish
            <==> reached(id, events.push(event)).stage == Stage::Finished),
{
    assert(events.push(event).drop_last() =~= events);
}

/// The bytes of two runs add up, and a single event brings the bytes of its part, if it is
/// one.
pub proof fn bytes_add_up(a: Seq<UploadEvent>, b: Seq<UploadEvent>, event: UploadEvent)
    ensures
        bytes_in(a + b) == bytes_in(a) + bytes_in(b),
        bytes_in(seq![event]) == match event {
            UploadEvent::Chunk(len) => len as nat,
            _ => 0,
        },
    decreases b.len(),
{
    assert(seq![event].drop_last() =~= Seq::<UploadEvent>::empty());
    assert(bytes_in(Seq::<UploadEvent>::empty()) == 0);
    if b.len() == 0 {
        assert(a + b =~= a);
    } else {
        bytes_add_up(a, b.drop_last(), event);
        assert((a + b).drop_last() =~= a + b.drop_last());
    }
}

/// What may happen first, and what may happen next: a file is created or not, and after that
/// an event answers what was asked for last. A part may have any number of bytes that can
/// still be counted. The time for the upload may be over as long as it is being taken in.
pub proof fn events_answer_what_was_asked(
    id: usize,
    events: Seq<UploadEvent>,
    last: UploadEvent,
    next: UploadEvent,
)
    requires
        possible(id, events.push(last)),
    ensures
        possible(id, seq![next]) <==> next is Created || next is CreateFailed,
        ({
            let step = advanced(reached(id, events), last).1;
            possible(id, events.push(last).push(next)) <==> match next {
                UploadEvent::Created | UploadEvent::CreateFailed => false,
                UploadEvent::Chunk(len) => step is Receive && bytes_in(events.push(last)) + len
                    <= u64::MAX,
                UploadEvent::StreamFailed | UploadEvent::StreamEnded => step is Receive,
                UploadEvent::Written | UploadEvent::WriteFailed => step is Write,
                UploadEvent::Flushed => step is Flush,
                UploadEvent::TimedOut => step is Receive || step is Write || step is Flush,
                UploadEvent::AnalyzerNotStarted | UploadEvent::AnalyzerEnded { .. } => step
                    is RunAnalyzer,
            }
        }),
{
    let all = events.push(last);
    assert(all.drop_last() =~= events);
    assert(all.push(next).drop_last() =~= all);
    assert(seq![next].drop_last() =~= Seq::<UploadEvent>::empty());
    assert(possible(id, Seq::<UploadEvent>::empty()));
    assert(reached(id, Seq::<UploadEvent>::empty()) == started(id));
    upload_stays_within_limit(id, all);
}

/// Every part of an upload is written, whichever it is and whatever came before, as long as
/// all that came is within the limit. Nothing is written but parts that came.
pub proof fn every_part_is_written(id: usize, events: Seq<UploadEvent>, event: UploadEvent)
    requires
        possible(id, events.push(event)),
    ensures
        advanced(reached(id, events), event).1 is Write <==> event is Chunk && bytes_in(
            events.push(event),
        ) <= 15 * 1024 * 1024,
{
    assert(events.push(event).drop_last() =~= events);
    upload_stays_within_limit(id, events);
}

/// The next part is awaited once the file is there and whenever a part has been written; the
/// file is flushed once the upload is complete, and the analyzer runs once the file is
/// flushed. None of these is done at any other time.
pub proof fn steps_follow_their_events(id: usize, events: Seq<UploadEvent>, event: UploadEvent)
    requires
        possible(id, events.push(event)),
    ensures
        advanced(reached(id, events), event).1 is Receive <==> event is Created || event is Written,
        advanced(reached(id, events), event).1 is Flush <==> event is StreamEnded,
        advanced(reached(id, events), event).1 is RunAnalyzer <==> event is Flushed,
{
    assert(events.push(event).drop_last() =~= events);
}

/// Whatever fails, the client is told at once, and the file goes if there is one: the server
/// takes the blame, unless the upload took too long.
pub proof fn failures_are_answered(id: usize, events: Seq<UploadEvent>, event: UploadEvent)
    requires
        possible(id, events.push(event)),
    ensures
        ({
            let step = advanced(reached(id, events), event).1;
            &&& event is CreateFailed ==> step == (Step::Finish {
                result: Err::<Answer, UploadError>(UploadError::Internal),
                file: FileFate::Absent,
            })
            &&& event is StreamFailed || event is WriteFailed || event is AnalyzerNotStarted ==> step
                == (Step::Finish {
                result: Err::<Answer, UploadError>(UploadError::Internal),
                file: FileFate::Delete,
            })
            &&& event is TimedOut ==> step == (Step::Finish {
                result: Err::<Answer, UploadError>(UploadError::Timeout),
                file: FileFate::Delete,
            })
        }),
{
    assert(events.push(event).drop_last() =~= events);
}

/// When the analyzer has ended well and printed a list of loops, the client gets all of them
/// with the number of its upload, and the file stays. When it failed, or printed anything
/// else, the server takes the blame and the file goes.
pub proof fn analyzer_output_is_answered(
    id: usize,
    events: Seq<UploadEvent>,
    stdout: Vec<u8>,
    success: bool,
    text: Seq<char>,
)
    requires
        possible(id, events.push(UploadEvent::AnalyzerEnded { stdout, success })),
    ensures
        ({
            let step = advanced(
                reached(id, events),
                UploadEvent::AnalyzerEnded { stdout, success },
            ).1;
            let internal = Step::Finish {
                result: Err::<Answer, UploadError>(UploadError::Internal),
                file: FileFate::Delete,
            };
            &&& !success || !valid_utf8(stdout@) ==> step == internal
            &&& success && stdout@ == encode_utf8(text) ==> match loops_in(text) {
                Some(loops) => step == (Step::Finish {
                    result: Ok::<Answer, UploadError>(Answer { loops, id }),
                    file: FileFate::Keep,
                }),
                None => step == internal,
            }
        }),
{
    assert(events.push(UploadEvent::AnalyzerEnded { stdout, success }).drop_last() =~= events);
    upload_stays_within_limit(id, events);
    output_is_read_as_text(text, stdout@);
}

/// An upload that arrives in parts, each of which is written when it comes.
pub open spec fn arrival(parts: Seq<usize>) -> Seq<UploadEvent>
    decreases parts.len(),
{
    if parts.len() == 0 {
        seq![UploadEvent::Created]
    } else {
        arrival(parts.drop_last()) + seq![UploadEvent::Chunk(parts.last()), UploadEvent::Written]
    }
}

/// The parts that come with events, in their order.
pub open spec fn parts_in(events: Seq<UploadEvent>) -> Seq<usize>
    decreases events.len(),
{
    if events.len() == 0 {
        Seq::empty()
    } else {
        let before = parts_in(events.drop_last());
        match events.last() {
            UploadEvent::Chunk(len) => before.push(len),
            _ => before,
        }
    }
}

/// The parts that are asked to be written, in their order.
pub open spec fn written_in(id: usize, events: Seq<UploadEvent>) -> Seq<usize>
    decreases events.len(),
{
    if events.len() == 0 {
        Seq::empty()
    } else {
        let init = events.drop_last();
        let before = written_in(id, init);
        match events.last() {
            UploadEvent::Chunk(len) => if advanced(reached(id, init), events.last()).1 is Write {
                before.push(len)
            } else {
                before
            },
            _ => before,
        }
    }
}

proof fn lemma_course(id: usize, events: Seq<UploadEvent>)
    requires
        possible(id, events),
    ensures
        ({
            let parts = parts_in(events);
            let stage = reached(id, events).stage;
            &&& stage != Stage::Finished ==> written_in(id, events) == parts
            &&& match stage {
                Stage::Creating => events.len() == 0 && parts.len() == 0,
                Stage::Receiving => events == arrival(parts),
                Stage::Writing => {
                    &&& parts.len() > 0
                    &&& events == arrival(parts.drop_last()).push(UploadEvent::Chunk(parts.last()))
                },
                Stage::Flushing => events == arrival(parts).push(UploadEvent::StreamEnded),
                Stage::Analyzing => events == arrival(parts).push(UploadEvent::StreamEnded).push(
                    UploadEvent::Flushed,
                ),
                Stage::Finished => true,
            }
        }),
    decreases events.len(),
{
    if events.len() > 0 {
        let init = events.drop_last();
        lemma_course(id, init);
        assert(events =~= init.push(events.last()));
        let parts = parts_in(events);
        match events.last() {
            UploadEvent::Created => {
                assert(parts =~= Seq::<usize>::empty());
                assert(events =~= arrival(parts));
            },
            UploadEvent::Chunk(len) => {
                assert(parts.drop_last() =~= parts_in(init));
            },
            UploadEvent::Written => {
                assert(events =~= arrival(parts));
            },
            _ => {},
        }
    }
}

/// The analyzer runs on the whole song: when it is asked for, the file has been created, every
/// part that came has been asked to be written and was written before the next one came, in
/// their order, the upload has ended, and the file has been flushed. All of this was within
/// the limit.
pub proof fn whole_upload_is_analyzed(id: usize, events: Seq<UploadEvent>)
    requires
        possible(id, events),
        events.len() > 0,
        advanced(reached(id, events.drop_last()), events.last()).1 is RunAnalyzer,
    ensures
        written_in(id, events) == parts_in(events),
        events == arrival(parts_in(events)) + seq![UploadEvent::StreamEnded, UploadEvent::Flushed],
        bytes_in(events) <= 15 * 1024 * 1024,
{
    lemma_course(id, events);
    upload_stays_within_limit(id, events);
    assert(events =~= arrival(parts_in(events)) + seq![
        UploadEvent::StreamEnded,
        UploadEvent::Flushed,
    ]);
}

/// An upload within the limit, in whatever parts it arrives, is taken in and analyzed.
pub proof fn upload_within_limit_is_analyzed(id: usize, parts: Seq<usize>)
    requires
        bytes_in(arrival(parts)) <= 15 * 1024 * 1024,
    ensures
        possible(
            id,
            arrival(parts).push(UploadEvent::StreamEnded).push(UploadEvent::Flushed),
        ),
        advanced(
            reached(id, arrival(parts).push(UploadEvent::StreamEnded)),
            UploadEvent::Flushed,
        ).1 is RunAnalyzer,
{
    lemma_arrival(id, parts);
    let ended = arrival(parts).push(UploadEvent::StreamEnded);
    assert(ended.drop_last() =~= arrival(parts));
    assert(ended.push(UploadEvent::Flushed).drop_last() =~= ended);
    assert(possible(id, ended));
}

proof fn lemma_arrival(id: usize, parts: Seq<usize>)
    requires
        bytes_in(arrival(parts)) <= 15 * 1024 * 1024,
    ensures
        possible(id, arrival(parts)),
        reached(id, arrival(parts)).stage == Stage::Receiving,
    decreases parts.len(),
{
    let all = arrival(parts);
    if parts.len() == 0 {
        assert(all.drop_last() =~= Seq::<UploadEvent>::empty());
        assert(possible(id, Seq::<UploadEvent>::empty()));
        assert(reached(id, Seq::<UploadEvent>::empty()) == started(id));
    } else {
        let init = arrival(parts.drop_last());
        let came = init.push(UploadEvent::Chunk(parts.last()));
        assert(all.drop_last() =~= came);
        assert(came.drop_last() =~= init);
        assert(bytes_in(all) == bytes_in(came));
        assert(bytes_in(came) == bytes_in(init) + parts.last());
        lemma_arrival(id, parts.drop_last());
        upload_stays_within_limit(id, init);
        assert(possible(id, came));
    }
}

/// What is asked for is viewed as what it is, and an answer as the loops and the number in it.
pub proof fn actions_are_viewed_as_they_are(action: UploadAction)
    ensures
        match action {
            UploadAction::Receive => action@ is Receive,
            UploadAction::Write => action@ is Write,
            UploadAction::Flush => action@ is Flush,
            UploadAction::RunAnalyzer => action@ is RunAnalyzer,
            UploadAction::Finish { result: Err(e), file } => action@ == (Step::Finish {
                result: Err::<Answer, UploadError>(e),
                file,
            }),
            UploadAction::Finish { result: Ok(answer), file } => {
                &&& action@ matches Step::Finish { result: Ok(seen), file: fate }
                &&& fate == file
                &&& seen.id == answer.id
                &&& seen.loops.len() == answer.loops@.len()
                &&& forall|i: int|
                    0 <= i < seen.loops.len() ==> #[trigger] seen.loops[i] == answer.loops@[i]@
            },
        },
{
}

/// The analysis of a song, from the creation of its file to the answer.
pub struct Analysis {
    id: usize,
    stage: Stage,
    received: u64,
}

impl View for Analysis {
    type V = Progress;

    closed spec fn view(&self) -> Progress {
        Progress { id: self.id, stage: self.stage, received: self.received as nat }
    }
}

impl Analysis {
    /// Starts the analysis of the upload with a number; its file must be created first.
    pub fn new(id: usize) -> (analysis: Self)
        ensures
            analysis@ == started(id),
    {
        Analysis { id, stage: Stage::Creating, received: 0 }
    }

    /// The bytes that have come.
    pub fn received(&self) -> (bytes: u64)
        ensures
            bytes == self@.received,
    {
        self.received
    }

    /// Takes note of what has happened and says what to do next.
    pub fn analyze_loops(&mut self, event: UploadEvent) -> (action: UploadAction)
        requires
            expected(old(self)@, event),
        ensures
            (final(self)@, action@) == advanced(old(self)@, event),
    {
        match event {
            UploadEvent::Created => {
                self.stage = Stage::Receiving;
                UploadAction::Receive
            },
            UploadEvent::CreateFailed => {
                self.stage = Stage::Finished;
                UploadAction::Finish { result: Err(UploadError::Internal), file: FileFate::Absent }
            },
            UploadEvent::Chunk(len) => {
                self.received = self.received + len as u64;
                if self.received > UPLOAD_LIMIT {
                    self.stage = Stage::Finished;
                    UploadAction::Finish {
                        result: Err(UploadError::TooBig(self.received)),
                        file: FileFate::Delete,
                    }
                } else {
                    self.stage = Stage::Writing;
                    UploadAction::Write
                }
            },
            UploadEvent::Written => {
                self.stage = Stage::Receiving;
                UploadAction::Receive
            },
            UploadEvent::StreamEnded => {
                self.stage = Stage::Flushing;
                UploadAction::Flush
            },
            UploadEvent::Flushed => {
                self.stage = Stage::Analyzing;
                UploadAction::RunAnalyzer
            },
            UploadEvent::StreamFailed
            | UploadEvent::WriteFailed
            | UploadEvent::AnalyzerNotStarted => {
                self.stage = Stage::Finished;
                UploadAction::Finish { result: Err(UploadError::Internal), file: FileFate::Delete }
            },
            UploadEvent::TimedOut => {
                self.stage = Stage::Finished;
                UploadAction::Finish { result: Err(UploadError::Timeout), file: FileFate::Delete }
            },
            UploadEvent::AnalyzerEnded { stdout, success } => {
                self.stage = Stage::Finished;
                match read_output(stdout, success) {
                    Ok(loops) => UploadAction::Finish {
                        result: Ok(AnalyzeResult { loops, id: self.id }),
                        file: FileFate::Keep,
                    },
                    Err(e) => UploadAction::Finish { result: Err(e), file: FileFate::Delete },
                }
            },
        }
    }
}

/// An upload is turned away before it starts exactly if the size that it announces, at least or
/// at most, is over the limit, and the client is told that size.
pub proof fn announced_size_decides(
    lower: u64,
    upper: Option<u64>,
    result: Result<(), UploadError>,
)
    requires
        call_ensures(check_size_hint, (lower, upper), result),
    ensures
        result is Ok <==> lower <= 15 * 1024 * 1024 && (upper matches Some(most) ==> most <= 15 * 1024
            * 1024),
        result matches Err(e) ==> (e matches UploadError::TooBig(size) && size > 15 * 1024 * 1024 && (
        size == lower || upper == Some(size))),
        upper matches Some(most) ==> (most > 15 * 1024 * 1024 ==> result == Err::<(), UploadError>(
            UploadError::TooBig(most),
        )),
{
}

/// Whatever has come before, a part is written if all that came is within the limit, and the
/// upload is given up with the size that was reached if not. The count of the bytes goes on.
pub proof fn parts_are_written_as_they_come(
    analysis: &mut Analysis,
    len: usize,
    action: UploadAction,
)
    requires
        call_ensures(Analysis::analyze_loops, (analysis, UploadEvent::Chunk(len)), action),
        old(analysis)@.stage == Stage::Receiving,
        old(analysis)@.received + len <= u64::MAX,
    ensures
        final(analysis)@.id == old(analysis)@.id,
        final(analysis)@.received == old(analysis)@.received + len,
        if old(analysis)@.received + len <= 15 * 1024 * 1024 {
            action is Write
        } else {
            &&& action matches UploadAction::Finish { result: Err(UploadError::TooBig(size)), file }
            &&& size == old(analysis)@.received + len
            &&& file == FileFate::Delete
        },
{
    actions_are_viewed_as_they_are(action);
    let before = old(analysis)@;
    assert((final(analysis)@, action@) == advanced(before, UploadEvent::Chunk(len)));
}

/// An analysis starts with nothing received and goes through its runs event by event: it asks
/// for what the event asks for, and has come as far as the event leads.
pub proof fn analysis_goes_through_its_runs(
    id: usize,
    fresh: Analysis,
    analysis: &mut Analysis,
    events: Seq<UploadEvent>,
    event: UploadEvent,
    action: UploadAction,
)
    requires
        call_ensures(Analysis::new, (id,), fresh),
        call_ensures(Analysis::analyze_loops, (analysis, event), action),
        old(analysis)@ == reached(id, events),
    ensures
        fresh@ == reached(id, Seq::<UploadEvent>::empty()),
        final(analysis)@ == reached(id, events.push(event)),
        action@ == advanced(reached(id, events), event).1,
{
    assert(events.push(event).drop_last() =~= events);
}

/// The analyzer is asked for all loops, in seconds, of the song at the place of the upload, and
/// of no other.
pub proof fn analyzer_is_asked_for_all_loops(args: Vec<AnalyzerArg>)
    requires
        call_ensures(analyzer_args, (), args),
    ensures
        ANALYZER@ == "pymusiclooper"@,
        args@.len() == 7,
        args@[0] == AnalyzerArg::Text("export-points"),
        args@[1] == AnalyzerArg::Text("--path"),
        forall|i: int| 0 <= i < args@.len() ==> (#[trigger] args@[i] is Upload <==> i == 2),
        args@[3] == AnalyzerArg::Text("--alt-export-top"),
        args@[4] == AnalyzerArg::Text("-1"),
        args@[5] == AnalyzerArg::Text("--fmt"),
        args@[6] == AnalyzerArg::Text("SECONDS"),
{
}

/// The bytes that are told to have come are those of all parts.
pub proof fn received_bytes_are_told(
    analysis: &Analysis,
    id: usize,
    events: Seq<UploadEvent>,
    bytes: u64,
)
    requires
        call_ensures(Analysis::received, (analysis,), bytes),
        possible(id, events),
        analysis@ == reached(id, events),
    ensures
        bytes == bytes_in(events),
{
    upload_stays_within_limit(id, events);
}

/// An upload has half a minute to arrive, and ten songs are taken in at a time.
pub proof fn uploads_have_their_limits()
    ensures
        UPLOAD_LIMIT == 15 * 1024 * 1024,
        UPLOAD_TIMEOUT_SECS == 30,
        ANALYZE_LIMIT == 10,
{
}

} // verus!
