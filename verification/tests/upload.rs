use looper::error::UploadError;
use looper::upload::{
    analyzer_args, check_size_hint, AnalyzerArg, Analysis, FileFate, UploadAction, UploadEvent, ANALYZER,
    UPLOAD_LIMIT,
};

fn failure(action: UploadAction) -> (UploadError, FileFate) {
    match action {
        UploadAction::Finish { result: Err(e), file } => (e, file),
        other => panic!("{other:?}"),
    }
}

fn receiving(id: usize) -> Analysis {
    let mut analysis = Analysis::new(id);
    assert!(matches!(analysis.analyze_loops(UploadEvent::Created), UploadAction::Receive));
    analysis
}

fn analyzing(id: usize) -> Analysis {
    let mut analysis = receiving(id);
    assert!(matches!(analysis.analyze_loops(UploadEvent::StreamEnded), UploadAction::Flush));
    assert!(matches!(analysis.analyze_loops(UploadEvent::Flushed), UploadAction::RunAnalyzer));
    analysis
}

#[test]
fn announced_sizes_are_checked() {
    assert_eq!(UPLOAD_LIMIT, 15728640);
    assert_eq!(check_size_hint(0, None), Ok(()));
    assert_eq!(check_size_hint(15728640, Some(15728640)), Ok(()));
    assert_eq!(check_size_hint(0, Some(15728641)), Err(UploadError::TooBig(15728641)));
    assert_eq!(check_size_hint(15728641, None), Err(UploadError::TooBig(15728641)));
    assert_eq!(check_size_hint(15728641, Some(20000000)), Err(UploadError::TooBig(20000000)));
}

#[test]
fn the_analyzer_is_called_for_all_loops_in_seconds() {
    let line: Vec<&str> = analyzer_args()
        .iter()
        .map(|arg| match arg {
            AnalyzerArg::Text(text) => *text,
            AnalyzerArg::Upload => "<file>",
        })
        .collect();
    assert_eq!(ANALYZER, "pymusiclooper");
    assert_eq!(line, ["export-points", "--path", "<file>", "--alt-export-top", "-1", "--fmt", "SECONDS"]);
}

#[test]
fn an_analyzed_upload_is_kept() {
    let mut analysis = receiving(41);
    for _ in 0..3 {
        assert!(matches!(analysis.analyze_loops(UploadEvent::Chunk(1000)), UploadAction::Write));
        assert!(matches!(analysis.analyze_loops(UploadEvent::Written), UploadAction::Receive));
    }
    assert_eq!(analysis.received(), 3000);
    assert!(matches!(analysis.analyze_loops(UploadEvent::StreamEnded), UploadAction::Flush));
    assert!(matches!(analysis.analyze_loops(UploadEvent::Flushed), UploadAction::RunAnalyzer));
    let event = UploadEvent::AnalyzerEnded { stdout: b"\n1 2 3 4 5\n6 7 8 9 10\n".to_vec(), success: true };
    match analysis.analyze_loops(event) {
        UploadAction::Finish { result: Ok(answer), file } => {
            assert_eq!(file, FileFate::Keep);
            assert_eq!(answer.id, 41);
            assert_eq!(answer.loops.len(), 2);
            assert_eq!(answer.loops[1].score, "10");
        }
        other => panic!("{other:?}"),
    }
}

#[test]
fn an_upload_may_reach_the_limit() {
    let mut analysis = receiving(1);
    assert!(matches!(analysis.analyze_loops(UploadEvent::Chunk(15728640)), UploadAction::Write));
}

#[test]
fn an_upload_over_the_limit_is_refused() {
    let mut analysis = receiving(1);
    assert!(matches!(analysis.analyze_loops(UploadEvent::Chunk(15728000)), UploadAction::Write));
    assert!(matches!(analysis.analyze_loops(UploadEvent::Written), UploadAction::Receive));
    let action = analysis.analyze_loops(UploadEvent::Chunk(641));
    assert_eq!(failure(action), (UploadError::TooBig(15728641), FileFate::Delete));
}

#[test]
fn an_upload_without_a_file_leaves_none() {
    let mut analysis = Analysis::new(1);
    let action = analysis.analyze_loops(UploadEvent::CreateFailed);
    assert_eq!(failure(action), (UploadError::Internal, FileFate::Absent));
}

#[test]
fn a_broken_upload_is_deleted() {
    let action = receiving(1).analyze_loops(UploadEvent::StreamFailed);
    assert_eq!(failure(action), (UploadError::Internal, FileFate::Delete));
    let mut analysis = receiving(1);
    analysis.analyze_loops(UploadEvent::Chunk(5));
    let action = analysis.analyze_loops(UploadEvent::WriteFailed);
    assert_eq!(failure(action), (UploadError::Internal, FileFate::Delete));
}

#[test]
fn a_slow_upload_is_deleted() {
    let action = receiving(1).analyze_loops(UploadEvent::TimedOut);
    assert_eq!(failure(action), (UploadError::Timeout, FileFate::Delete));
    let mut analysis = receiving(1);
    analysis.analyze_loops(UploadEvent::Chunk(5));
    let action = analysis.analyze_loops(UploadEvent::TimedOut);
    assert_eq!(failure(action), (UploadError::Timeout, FileFate::Delete));
    let mut analysis = receiving(1);
    analysis.analyze_loops(UploadEvent::StreamEnded);
    let action = analysis.analyze_loops(UploadEvent::TimedOut);
    assert_eq!(failure(action), (UploadError::Timeout, FileFate::Delete));
}

#[test]
fn an_upload_that_cannot_be_analyzed_is_deleted() {
    let action = analyzing(1).analyze_loops(UploadEvent::AnalyzerNotStarted);
    assert_eq!(failure(action), (UploadError::Internal, FileFate::Delete));
    for (stdout, success) in [("1 2 3 4 5", false), ("no loops", true), ("", true)] {
        let event = UploadEvent::AnalyzerEnded { stdout: stdout.as_bytes().to_vec(), success };
        let action = analyzing(1).analyze_loops(event);
        assert_eq!(failure(action), (UploadError::Internal, FileFate::Delete));
    }
}
