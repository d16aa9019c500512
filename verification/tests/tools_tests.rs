use cola_cutter::locate::{first_stage, lookup_step, LookupStage, LookupStep};
use cola_cutter::cleanup::{is_scratch_file, stale_pids};
use cola_cutter::locate::{
    bin_name, bundle_candidates, cached_bin, override_path, project_candidates, system_candidates, which_answer,
    working_dir_candidate,
};
use cola_cutter::probe::{parse_dimensions_output, parse_duration_output, start_failed, FfmpegLog};
use cola_cutter::watermark::{
    first_marked, font_arg, font_candidates, pointsize, resolve_system_font, stamp_label, stamp_margin, stamp_offset,
    stamp_tool, Platform,
};

#[test]
fn pointsizes_by_frame_size() {
    assert_eq!(pointsize(0), 12);
    assert_eq!(pointsize(239), 12);
    assert_eq!(pointsize(240), 18);
    assert_eq!(pointsize(359), 18);
    assert_eq!(pointsize(360), 22);
    assert_eq!(pointsize(480), 22);
    assert_eq!(pointsize(540), 30);
    assert_eq!(pointsize(899), 30);
    assert_eq!(pointsize(900), 40);
    assert_eq!(pointsize(1080), 40);
}

#[test]
fn margins_and_offsets() {
    assert_eq!(stamp_margin(12), 8);
    assert_eq!(stamp_margin(18), 9);
    assert_eq!(stamp_margin(40), 20);
    assert_eq!(stamp_offset(9), "+9+9");
}

#[test]
fn stamp_labels() {
    assert_eq!(stamp_label(12500, 0, 3), "t: 12.50s  (1/3)");
    assert_eq!(stamp_label(0, 9, 10), "t: 0.00s  (10/10)");
    assert_eq!(stamp_label(61234, 1, 2), "t: 61.23s  (2/2)");
}

#[test]
fn stamp_tools() {
    assert_eq!(stamp_tool(true, true), Ok("magick".to_string()));
    assert_eq!(stamp_tool(false, true), Ok("convert".to_string()));
    assert_eq!(stamp_tool(false, false), Err("未找到 ImageMagick (magick/convert)，无法加水印".to_string()));
}

#[test]
fn fonts() {
    assert_eq!(font_candidates(&Platform::MacOs)[0], "/System/Library/Fonts/Supplemental/Arial.ttf");
    assert_eq!(font_candidates(&Platform::Windows)[0], "C:\\Windows\\Fonts\\arial.ttf");
    assert_eq!(font_candidates(&Platform::Linux).len(), 3);
    let cs = vec!["a".to_string(), "b".to_string(), "c".to_string()];
    assert_eq!(first_marked(&cs, &vec![false, true, true]), Some("b".to_string()));
    assert_eq!(first_marked(&cs, &vec![false, false, false]), None);
    assert_eq!(first_marked(&cs, &vec![false]), None);
    assert_eq!(font_arg(None), "Arial");
    assert_eq!(font_arg(Some("/f.ttf".to_string())), "/f.ttf");
    let found = resolve_system_font(Platform::Linux);
    match found {
        Some(f) => {
            assert!(font_candidates(&Platform::Linux).contains(&f));
            assert!(std::path::Path::new(&f).exists());
        }
        None => {
            for c in font_candidates(&Platform::Linux) {
                assert!(!std::path::Path::new(&c).exists());
            }
        }
    }
}

#[test]
fn binary_places() {
    assert_eq!(bin_name(""), "ffmpeg");
    assert_eq!(bin_name("ffprobe"), "ffprobe");
    assert_eq!(override_path("  /opt/ff  \n"), Some("/opt/ff".to_string()));
    assert_eq!(override_path("   "), None);
    assert_eq!(
        bundle_candidates("/App.app/Contents/MacOS", "ffmpeg"),
        vec![
            "/App.app/Contents/MacOS/../Resources/ffmpeg".to_string(),
            "/App.app/Contents/MacOS/../Resources/_up_/bin/ffmpeg".to_string(),
            "/App.app/Contents/MacOS/Resources/ffmpeg".to_string(),
            "/App.app/Contents/MacOS/ffmpeg".to_string(),
        ]
    );
    assert_eq!(
        project_candidates("/proj"),
        vec!["/proj/bin/ffmpeg-darwin-x64".to_string(), "/proj/bin/ffmpeg".to_string()]
    );
    assert_eq!(working_dir_candidate("/w", false), "/w/bin/ffmpeg");
    assert_eq!(working_dir_candidate("/w", true), "/w/bin/ffmpeg.exe");
    assert_eq!(
        system_candidates("ffmpeg"),
        vec![
            "/opt/homebrew/bin/ffmpeg".to_string(),
            "/usr/local/bin/ffmpeg".to_string(),
            "/usr/bin/ffmpeg".to_string(),
        ]
    );
}

#[test]
fn which_output() {
    assert_eq!(which_answer("/usr/bin/ffmpeg\n"), Some("/usr/bin/ffmpeg".to_string()));
    assert_eq!(which_answer(" /a/ffmpeg \n/b/ffmpeg\n"), Some("/a/ffmpeg".to_string()));
    assert_eq!(which_answer(""), None);
}

#[test]
fn cached_lookup() {
    let found = Some(("ffmpeg".to_string(), "/usr/bin/ffmpeg".to_string()));
    assert_eq!(cached_bin(&found, "ffmpeg"), "/usr/bin/ffmpeg");
    assert_eq!(cached_bin(&found, "ffprobe"), "ffprobe");
    assert_eq!(cached_bin(&None, "ffmpeg"), "ffmpeg");
}

#[test]
fn durations_from_ffmpeg_output() {
    let out = "Input #0, mov,mp4, from 'a.mp4':\n  Duration: 00:01:02.50, start: 0.000000, bitrate: 100 kb/s\n";
    assert_eq!(parse_duration_output(out), Ok(62500));
    let hours = "  Duration: 01:00:00.00, start: 0.0\n";
    assert_eq!(parse_duration_output(hours), Ok(3600000));
    assert_eq!(parse_duration_output("no duration here"), Err("无法从 ffmpeg 输出解析时长".to_string()));
    assert_eq!(parse_duration_output("  Duration: N/A, start: 0"), Err("无法从 ffmpeg 输出解析时长".to_string()));
}

#[test]
fn dimensions_from_ffmpeg_output() {
    let out = "  Stream #0:0(und): Video: h264 (High), yuv420p(progressive), 1920x1080 [SAR 1:1 DAR 16:9], 30 fps\n";
    assert_eq!(parse_dimensions_output(out), Ok((1920, 1080)));
    let vertical = "Stream #0:0: Video: hevc, yuv420p, 1080x1920, 25 fps";
    assert_eq!(parse_dimensions_output(vertical), Ok((1080, 1920)));
    assert_eq!(parse_dimensions_output("Stream #0:1: Audio: aac"), Err("无法从 ffmpeg 输出解析分辨率".to_string()));
}

#[test]
fn start_failure_and_log_lines() {
    assert_eq!(start_failed("not found"), "ffmpeg 启动失败: not found");
    let l = FfmpegLog { line: "frame=1".to_string(), stream: "stderr".to_string() };
    assert_eq!(l.line, "frame=1");
    assert_eq!(l.stream, "stderr");
}

#[test]
fn stale_instances() {
    assert_eq!(stale_pids("12\n 34 \nabc\n99\n", 34), vec![12, 99]);
    assert_eq!(stale_pids("", 1), Vec::<u32>::new());
    assert_eq!(stale_pids("+7\n-3\n", 1), vec![7]);
}

#[test]
fn scratch_files() {
    assert!(is_scratch_file("cola_seg_12_345.mp4"));
    assert!(!is_scratch_file("cola_seg_12.mov"));
    assert!(!is_scratch_file("seg_001.mp4"));
}

#[test]
fn lookup_stages_in_order() {
    let mut stage = first_stage();
    let mut seen = Vec::new();
    loop {
        seen.push(format!("{:?}", stage));
        match lookup_step(stage, None) {
            LookupStep::Next(n) => stage = n,
            LookupStep::NotFound => break,
            LookupStep::Found(_) => panic!("nothing was found"),
        }
    }
    assert_eq!(seen, vec!["Override", "Bundle", "Project", "WorkingDir", "SearchPath", "System"]);
    match lookup_step(LookupStage::Project, Some("/p/ffmpeg".to_string())) {
        LookupStep::Found(p) => assert_eq!(p, "/p/ffmpeg"),
        other => panic!("{:?}", other),
    }
}
