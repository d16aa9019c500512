use cola_cutter::cutting::{after_cut, CutAttempt, CutNext};
use cola_cutter::ai_run::{chunk_ai_failed, chunk_extract_failed, chunk_spawn_failed, AiProgress, WindowOutcome};
use cola_cutter::cutting::{
    cache_usable, collect_segments, cut_exit_failed, cut_timeout_ms, empty_cut_message, output_empty,
    remux_exit_failed, scratch_name, timeout_message,
};
use cola_cutter::names::{sort_videos_by_name, text_less};
use cola_cutter::plan::VideoFile;
use cola_cutter::vision::CutShot;

fn shot(start: i64, end: i64, reason: Option<&str>) -> CutShot {
    CutShot { start, end, reason: reason.map(|s| s.to_string()) }
}

#[test]
fn window_messages() {
    assert_eq!(chunk_spawn_failed(0), "分片 1 无法启动 ffmpeg");
    assert_eq!(chunk_extract_failed(2), "分片 3 抽帧失败");
    assert_eq!(chunk_ai_failed(1, "timeout"), "分片 2 AI 失败: timeout");
}

#[test]
fn run_keeps_all_proposals_in_order() {
    let mut p = AiProgress::new();
    p.record(0, WindowOutcome::Proposed(vec![shot(0, 5000, Some("a"))]));
    p.record(1, WindowOutcome::ModelFailed("boom".to_string()));
    p.record(2, WindowOutcome::NoFrames);
    p.record(3, WindowOutcome::Proposed(vec![shot(360000, 366000, None), shot(370000, 375000, None)]));
    assert_eq!(p.last_error, Some("分片 2 AI 失败: boom".to_string()));
    let r = p.finish().unwrap();
    let starts: Vec<i64> = r.iter().map(|s| s.start).collect();
    assert_eq!(starts, vec![0, 360000, 370000]);
}

#[test]
fn run_without_shots_reports_last_error() {
    let mut p = AiProgress::new();
    p.record(0, WindowOutcome::SpawnFailed);
    p.record(1, WindowOutcome::ExtractFailed);
    p.record(2, WindowOutcome::NoFrames);
    assert_eq!(p.finish().unwrap_err(), "分片 2 抽帧失败");
}

#[test]
fn run_without_anything_says_nothing_picked() {
    let mut p = AiProgress::new();
    p.record(0, WindowOutcome::Proposed(vec![]));
    assert_eq!(p.finish().unwrap_err(), "AI 未挑选出任何镜头");
}

#[test]
fn segments_kept_where_the_cut_worked() {
    let shots = vec![shot(0, 5000, Some("a")), shot(5000, 10000, None), shot(10000, 12000, Some("c"))];
    let outcomes = vec![Some(5000), None, Some(2000)];
    let segs = collect_segments("/out", "clip", false, "clip.mp4", &shots, &outcomes);
    assert_eq!(segs.len(), 2);
    assert_eq!(segs[0].output_path, "/out/clip_seg_001.mp4");
    assert_eq!(segs[0].source, "clip.mp4");
    assert_eq!((segs[0].src_start, segs[0].src_end, segs[0].duration), (0, 5000, 5000));
    assert_eq!(segs[0].reason, Some("a".to_string()));
    assert_eq!(segs[1].output_path, "/out/clip_seg_003.mp4");
    assert_eq!((segs[1].src_start, segs[1].src_end, segs[1].duration), (10000, 12000, 2000));
    let grouped = collect_segments("/out/clip", "clip", true, "clip.mp4", &shots, &vec![Some(1)]);
    assert_eq!(grouped.len(), 1);
    assert_eq!(grouped[0].output_path, "/out/clip/seg_001.mp4");
}

#[test]
fn one_cut_names_and_limits() {
    assert_eq!(scratch_name(42, 1700000000123456789), "cola_seg_42_1700000000123456789.mp4");
    assert_eq!(cut_timeout_ms(5000), 65000);
    assert_eq!(timeout_message(65000), "ffmpeg 超时（>65s）被强杀");
    assert_eq!(cut_exit_failed(Some(1)), "ffmpeg 切段失败 (exit: Some(1))");
    assert_eq!(cut_exit_failed(Some(-9)), format!("ffmpeg 切段失败 (exit: {:?})", Some(-9)));
    assert_eq!(cut_exit_failed(None), "ffmpeg 切段失败 (exit: None)");
    assert_eq!(remux_exit_failed(Some(255)), "remux exit=Some(255)");
    assert!(output_empty(0));
    assert!(output_empty(1023));
    assert!(!output_empty(1024));
    assert_eq!(empty_cut_message("/a.mov", 1500, 6250), "ffmpeg 切段输出 0 字节（src=/a.mov [1.50-6.25]）");
    assert!(cache_usable(true, 1));
    assert!(!cache_usable(true, 0));
    assert!(!cache_usable(false, 10));
}

fn video(name: &str) -> VideoFile {
    VideoFile { path: format!("/in/{}", name), name: name.to_string(), size: 1, duration: None }
}

#[test]
fn videos_sorted_by_name() {
    let v = vec![video("b.mp4"), video("B.mp4"), video("a.mp4"), video("ab.mp4"), video("a.mov"), video("中.mp4")];
    let r = sort_videos_by_name(v);
    let names: Vec<&str> = r.iter().map(|f| f.name.as_str()).collect();
    let mut expected = vec!["b.mp4", "B.mp4", "a.mp4", "ab.mp4", "a.mov", "中.mp4"];
    expected.sort();
    assert_eq!(names, expected);
    assert_eq!(r[0].path, "/in/B.mp4");
}

#[test]
fn text_order_is_string_order() {
    let words = ["", "a", "ab", "b", "B", "é", "中", "a\u{0}"];
    for x in words {
        for y in words {
            let xs: Vec<char> = x.chars().collect();
            let ys: Vec<char> = y.chars().collect();
            assert_eq!(text_less(&xs, &ys), x < y, "{:?} {:?}", x, y);
        }
    }
}

#[test]
fn scratch_files_of_cuts_are_cleaned_up() {
    for (pid, nanos) in [(1u32, 0u128), (4242, 1700000000123456789), (u32::MAX, u128::MAX)] {
        assert!(cola_cutter::cleanup::is_scratch_file(&scratch_name(pid, nanos)));
    }
}

#[test]
fn every_segment_gets_its_own_file() {
    let mut seen = std::collections::HashSet::new();
    for group in [false, true] {
        seen.clear();
        for i in 0..1200usize {
            let p = cola_cutter::plan::segment_output_path("/out", "clip", i, group);
            assert!(seen.insert(p));
        }
    }
}

#[test]
fn retry_once_on_a_remuxed_copy() {
    assert!(matches!(after_cut(CutAttempt::Direct, Ok(5000)), CutNext::Finish(Ok(5000))));
    assert!(matches!(after_cut(CutAttempt::Direct, Err("x".to_string())), CutNext::RemuxAndRetry));
    assert!(matches!(after_cut(CutAttempt::OnRemuxedCopy, Ok(7)), CutNext::Finish(Ok(7))));
    match after_cut(CutAttempt::OnRemuxedCopy, Err("boom".to_string())) {
        CutNext::Finish(Err(e)) => assert_eq!(e, "boom"),
        other => panic!("{:?}", other),
    }
}

#[test]
fn moved_report() {
    assert_eq!(cola_cutter::plan::moved_message(3, "\"/in/used\""), "moved 3 to \"/in/used\"");
}
