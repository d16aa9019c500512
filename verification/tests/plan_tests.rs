use std::hash::{Hash, Hasher};
use cola_cutter::plan::{
    deleted_message, effective_chunk_ms, effective_fps, frame_filter, frame_number, frame_time, frames_dir_name,
    is_video_file_name, md5_like_hash, output_dir, plan_pure_cut, probe_failed, remux_cache_dir, remux_file_name,
    seconds_arg, segment_output_path, sort_frames, split_into_time_chunks, stem_or, unknown_action_message,
    used_action, used_folder, CutResult, FrameFile, UsedAction,
};

#[test]
fn chunks_of_a_long_video() {
    assert_eq!(
        split_into_time_chunks(250000, 120000),
        vec![(0, 120000), (120000, 240000), (240000, 250000)]
    );
}

#[test]
fn chunks_exact_multiple() {
    assert_eq!(split_into_time_chunks(240000, 120000), vec![(0, 120000), (120000, 240000)]);
}

#[test]
fn chunks_of_short_video() {
    assert_eq!(split_into_time_chunks(30000, 120000), vec![(0, 30000)]);
}

#[test]
fn chunks_of_no_length_or_no_chunk() {
    assert_eq!(split_into_time_chunks(0, 120000), vec![(0, 0)]);
    assert_eq!(split_into_time_chunks(-5, 120000), vec![(0, 0)]);
    assert_eq!(split_into_time_chunks(5000, 0), vec![(0, 5000)]);
    assert_eq!(split_into_time_chunks(5000, -1), vec![(0, 5000)]);
}

#[test]
fn chunks_tile_the_duration() {
    let d = 1234567;
    let c = 100000;
    let r = split_into_time_chunks(d, c);
    assert_eq!(r[0].0, 0);
    assert_eq!(r[r.len() - 1].1, d);
    for w in r.windows(2) {
        assert_eq!(w[0].1, w[1].0);
    }
    for (a, b) in &r {
        assert!(0 < b - a && b - a <= c);
    }
}

#[test]
fn pure_plan_with_trim() {
    assert_eq!(plan_pure_cut(12000, 5000, true), vec![(0, 5000), (5000, 10000)]);
}

#[test]
fn pure_plan_without_trim_keeps_the_rest() {
    assert_eq!(plan_pure_cut(12000, 5000, false), vec![(0, 5000), (5000, 10000), (10000, 12000)]);
}

#[test]
fn pure_plan_exact_fit() {
    assert_eq!(plan_pure_cut(10000, 5000, false), vec![(0, 5000), (5000, 10000)]);
    assert_eq!(plan_pure_cut(10000, 5000, true), vec![(0, 5000), (5000, 10000)]);
}

#[test]
fn pure_plan_short_and_empty_videos() {
    assert_eq!(plan_pure_cut(3000, 5000, true), vec![]);
    assert_eq!(plan_pure_cut(3000, 5000, false), vec![(0, 3000)]);
    assert_eq!(plan_pure_cut(0, 5000, false), vec![]);
    assert_eq!(plan_pure_cut(0, 0, false), vec![]);
}

#[test]
fn stems() {
    assert_eq!(stem_or("clip.mp4", "output"), "clip");
    assert_eq!(stem_or("a.b.mov", "output"), "a.b");
    assert_eq!(stem_or(".hidden", "output"), ".hidden");
    assert_eq!(stem_or("noext", "output"), "noext");
    assert_eq!(stem_or("", "output"), "output");
    assert_eq!(stem_or("..", "v"), "v");
    for name in ["clip.mp4", "a.b.mov", ".hidden", "noext", "x."] {
        let std_stem = std::path::Path::new(name).file_stem().and_then(|s| s.to_str()).unwrap_or("output");
        assert_eq!(stem_or(name, "output"), std_stem);
    }
}

#[test]
fn output_names_flat_and_grouped() {
    let flat = output_dir("/out", "clip", false);
    assert_eq!(flat, "/out");
    assert_eq!(segment_output_path(&flat, "clip", 0, false), "/out/clip_seg_001.mp4");
    assert_eq!(segment_output_path(&flat, "clip", 11, false), "/out/clip_seg_012.mp4");
    let grouped = output_dir("/out", "clip", true);
    assert_eq!(grouped, "/out/clip");
    assert_eq!(segment_output_path(&grouped, "clip", 0, true), "/out/clip/seg_001.mp4");
    assert_eq!(segment_output_path(&grouped, "clip", 999, true), "/out/clip/seg_1000.mp4");
}

#[test]
fn hash_matches_std_hash_of_str() {
    for s in ["", "/tmp/a.mov", "视频.mp4"] {
        let mut h = std::collections::hash_map::DefaultHasher::new();
        s.hash(&mut h);
        assert_eq!(md5_like_hash(s), h.finish());
    }
}

#[test]
fn remux_names() {
    assert_eq!(remux_file_name(255, 17), "ff_17.mp4");
    assert_eq!(remux_file_name(0, 0), "0_0.mp4");
    assert_eq!(remux_file_name(u64::MAX, 1), format!("{:x}_1.mp4", u64::MAX));
    assert_eq!(remux_cache_dir(Some("/Users/a".to_string())), "/Users/a/.cola-cutter-cache/remux");
    assert_eq!(remux_cache_dir(None), "/tmp/cola-cutter-cache/remux");
}

#[test]
fn video_file_names() {
    assert!(is_video_file_name("a.mp4"));
    assert!(is_video_file_name("A.MOV"));
    assert!(is_video_file_name("x.y.webm"));
    assert!(is_video_file_name("clip.M4V"));
    assert!(is_video_file_name("..a.mkv"));
    assert!(!is_video_file_name("._a.mp4"));
    assert!(!is_video_file_name(".a.mp4"));
    assert!(!is_video_file_name("a.txt"));
    assert!(!is_video_file_name("mp4"));
    assert!(!is_video_file_name("a."));
    assert!(!is_video_file_name(".."));
    assert!(!is_video_file_name("a.mp4.bak"));
}

#[test]
fn frame_numbers() {
    assert_eq!(frame_number("f_0003.jpg"), Some(3));
    assert_eq!(frame_number("f_12.jpg"), Some(12));
    assert_eq!(frame_number("f_.jpg"), None);
    assert_eq!(frame_number("g_0001.jpg"), None);
    assert_eq!(frame_number("f_0001.png"), None);
    assert_eq!(frame_number("f_x1.jpg"), None);
}

#[test]
fn frame_times() {
    assert_eq!(effective_fps(0), 1000);
    assert_eq!(effective_fps(-3), 1000);
    assert_eq!(effective_fps(2000), 2000);
    assert_eq!(effective_chunk_ms(0), 120000);
    assert_eq!(effective_chunk_ms(60000), 60000);
    assert_eq!(frame_time(10000, 1, 1000), 10000);
    assert_eq!(frame_time(10000, 3, 1000), 12000);
    assert_eq!(frame_time(10000, 3, 2000), 11000);
    assert_eq!(frame_time(0, 2, 3000), 333);
    assert_eq!(frame_time(10000, 0, 1000), 9000);
}

#[test]
fn frames_sorted_by_time_stably() {
    let v = vec![
        FrameFile { t: 3000, path: "c".to_string() },
        FrameFile { t: 1000, path: "a".to_string() },
        FrameFile { t: 3000, path: "d".to_string() },
        FrameFile { t: 2000, path: "b".to_string() },
    ];
    let r = sort_frames(v);
    let paths: Vec<&str> = r.iter().map(|f| f.path.as_str()).collect();
    assert_eq!(paths, vec!["a", "b", "c", "d"]);
}

#[test]
fn ffmpeg_arguments() {
    assert_eq!(seconds_arg(1234), "1.234");
    assert_eq!(seconds_arg(0), "0.000");
    assert_eq!(seconds_arg(120000), "120.000");
    assert_eq!(frame_filter(1000, 480), "fps=1,scale=480:-2:flags=lanczos");
    assert_eq!(frame_filter(500, 720), "fps=0.5,scale=720:-2:flags=lanczos");
    assert_eq!(frame_filter(2500, 360), "fps=2.5,scale=360:-2:flags=lanczos");
    assert_eq!(frames_dir_name("clip", 0), "frames_clip_chunk0");
    assert_eq!(frames_dir_name("clip", 12), "frames_clip_chunk12");
}

#[test]
fn used_video_actions() {
    assert!(matches!(used_action("none", 3), UsedAction::Skip));
    assert!(matches!(used_action("move", 0), UsedAction::Skip));
    assert!(matches!(used_action("move", 2), UsedAction::Move));
    assert!(matches!(used_action("delete", 2), UsedAction::Delete));
    assert!(matches!(used_action("burn", 2), UsedAction::Unknown));
    assert_eq!(used_folder("/in"), "/in/used");
    assert_eq!(deleted_message(3), "deleted 3");
    assert_eq!(unknown_action_message("burn"), "未知的 action: burn");
}

#[test]
fn failed_results() {
    let r = CutResult::failed("a.mp4".to_string(), probe_failed("boom"));
    assert_eq!(r.source_name, "a.mp4");
    assert!(r.segments.is_empty());
    assert_eq!(r.error, Some("探测时长失败: boom".to_string()));
}

#[test]
fn extracted_frame_names_read_back() {
    assert_eq!(cola_cutter::plan::frame_pattern(), "f_%04d.jpg");
    for n in [1u32, 9, 10, 999, 1000, 12345, u32::MAX] {
        assert_eq!(frame_number(&format!("f_{:04}.jpg", n)), Some(n));
    }
    assert_eq!(cola_cutter::plan::work_dir_name(77), "cola_cut_77");
}
