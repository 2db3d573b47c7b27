use pacascope::tailer::{advance, cut_lines, plan_read, FileStamp, LogReadCursor, LogTailer, ReadPlan};

#[test]
fn new_file_is_read_from_its_start() {
    let plan = plan_read(None, FileStamp { identity: 7, size: 100 });
    assert_eq!(plan, ReadPlan { from: 0, rotated: false });
}

#[test]
fn grown_file_is_read_from_the_cursor() {
    let cursor = LogReadCursor { identity: 7, offset: 40 };
    assert_eq!(plan_read(Some(cursor), FileStamp { identity: 7, size: 100 }), ReadPlan { from: 40, rotated: false });
    assert_eq!(plan_read(Some(cursor), FileStamp { identity: 7, size: 40 }), ReadPlan { from: 40, rotated: false });
}

#[test]
fn shrunk_file_is_reread_and_flagged() {
    let cursor = LogReadCursor { identity: 7, offset: 40 };
    assert_eq!(plan_read(Some(cursor), FileStamp { identity: 7, size: 39 }), ReadPlan { from: 0, rotated: true });
    assert_eq!(plan_read(Some(cursor), FileStamp { identity: 7, size: 0 }), ReadPlan { from: 0, rotated: true });
}

#[test]
fn replaced_file_is_reread_and_flagged() {
    let cursor = LogReadCursor { identity: 7, offset: 40 };
    assert_eq!(plan_read(Some(cursor), FileStamp { identity: 8, size: 500 }), ReadPlan { from: 0, rotated: true });
}

#[test]
fn cursor_moves_over_what_was_handed_on() {
    let stamp = FileStamp { identity: 7, size: 100 };
    let plan = ReadPlan { from: 40, rotated: false };
    assert_eq!(advance(plan, stamp, 25), LogReadCursor { identity: 7, offset: 65 });
    assert_eq!(advance(plan, stamp, 0), LogReadCursor { identity: 7, offset: 40 });
    assert_eq!(advance(plan, stamp, 60), LogReadCursor { identity: 7, offset: 100 });
}

#[test]
fn cursor_never_points_beyond_the_file() {
    let stamp = FileStamp { identity: 7, size: 100 };
    assert_eq!(advance(ReadPlan { from: 40, rotated: false }, stamp, 61).offset, 100);
    assert_eq!(advance(ReadPlan { from: 40, rotated: false }, stamp, u64::MAX).offset, 100);
    assert_eq!(advance(ReadPlan { from: 200, rotated: false }, stamp, 1).offset, 100);
}

#[test]
fn only_complete_lines_are_handed_on() {
    let (lines, consumed) = cut_lines(b"first\nsecond\nthi");
    assert_eq!(lines, vec![b"first".to_vec(), b"second".to_vec()]);
    assert_eq!(consumed, 13);
    let (lines, consumed) = cut_lines(b"no line feed yet");
    assert!(lines.is_empty());
    assert_eq!(consumed, 0);
    let (lines, consumed) = cut_lines(b"");
    assert!(lines.is_empty());
    assert_eq!(consumed, 0);
}

#[test]
fn empty_lines_are_lines() {
    let (lines, consumed) = cut_lines(b"\n\na\n");
    assert_eq!(lines, vec![b"".to_vec(), b"".to_vec(), b"a".to_vec()]);
    assert_eq!(consumed, 4);
}

#[test]
fn batches_follow_each_other_without_rereading() {
    let mut tailer = LogTailer::new();
    let path = "logs/tournament_alpha_1.log";
    let content = b"one\ntwo\nthr";
    let stamp = FileStamp { identity: 1, size: content.len() as u64 };
    let plan = tailer.plan(path, stamp);
    assert_eq!(plan, ReadPlan { from: 0, rotated: false });
    let (lines, consumed) = cut_lines(&content[plan.from as usize..]);
    assert_eq!(lines.len(), 2);
    tailer.commit(path, stamp, plan, consumed as u64);
    assert_eq!(tailer.cursor(path), Some(LogReadCursor { identity: 1, offset: 8 }));

    // The file grows; the next batch starts behind the lines handed on.
    let content = b"one\ntwo\nthree\nfour\n";
    let stamp = FileStamp { identity: 1, size: content.len() as u64 };
    let plan = tailer.plan(path, stamp);
    assert_eq!(plan, ReadPlan { from: 8, rotated: false });
    let (lines, consumed) = cut_lines(&content[plan.from as usize..]);
    assert_eq!(lines, vec![b"three".to_vec(), b"four".to_vec()]);
    tailer.commit(path, stamp, plan, consumed as u64);
    assert_eq!(tailer.cursor(path), Some(LogReadCursor { identity: 1, offset: 19 }));

    // Nothing new: nothing is read again.
    let plan = tailer.plan(path, stamp);
    assert_eq!(plan, ReadPlan { from: 19, rotated: false });
}

#[test]
fn cursor_stays_when_nothing_is_committed() {
    let mut tailer = LogTailer::new();
    let stamp = FileStamp { identity: 1, size: 10 };
    let plan = tailer.plan("a.log", stamp);
    tailer.commit("a.log", stamp, plan, 4);
    let again = tailer.plan("a.log", FileStamp { identity: 1, size: 20 });
    assert_eq!(again.from, 4);
    // The lines were not handed on: the caller does not commit, and the
    // next plan is the same.
    assert_eq!(tailer.plan("a.log", FileStamp { identity: 1, size: 20 }), again);
}

#[test]
fn files_are_followed_apart() {
    let mut tailer = LogTailer::new();
    let stamp = FileStamp { identity: 1, size: 10 };
    tailer.commit("a.log", stamp, ReadPlan { from: 0, rotated: false }, 4);
    tailer.commit("b.log", stamp, ReadPlan { from: 0, rotated: false }, 9);
    tailer.commit("a.log", stamp, ReadPlan { from: 4, rotated: false }, 2);
    assert_eq!(tailer.cursor("a.log"), Some(LogReadCursor { identity: 1, offset: 6 }));
    assert_eq!(tailer.cursor("b.log"), Some(LogReadCursor { identity: 1, offset: 9 }));
    assert_eq!(tailer.cursor("c.log"), None);
}

#[test]
fn rotation_resets_the_cursor() {
    let mut tailer = LogTailer::new();
    tailer.commit("a.log", FileStamp { identity: 1, size: 50 }, ReadPlan { from: 0, rotated: false }, 50);
    let stamp = FileStamp { identity: 2, size: 12 };
    let plan = tailer.plan("a.log", stamp);
    assert_eq!(plan, ReadPlan { from: 0, rotated: true });
    tailer.commit("a.log", stamp, plan, 12);
    assert_eq!(tailer.cursor("a.log"), Some(LogReadCursor { identity: 2, offset: 12 }));
    assert_eq!(tailer.plan("a.log", stamp), ReadPlan { from: 12, rotated: false });
}
