use cola_cutter::config::{CutRequirement, IdSource, ReqField};
use cola_cutter::vision::{
    build_prompt, extract_content_sse_or_json, filter_shots_by_length, parse_segments_json, parse_text_analysis,
    segments_from_reply, sort_shots_by_start, CutShot, FrameShot,
};

fn shot(start: i64, end: i64, reason: Option<&str>) -> CutShot {
    CutShot { start, end, reason: reason.map(|s| s.to_string()) }
}

fn triples(v: &[CutShot]) -> Vec<(i64, i64, Option<String>)> {
    v.iter().map(|s| (s.start, s.end, s.reason.clone())).collect()
}

/// The prompt as the seconds-based formatting writes it, for comparison.
fn prompt_in_seconds(fields: &[(&str, &str)], times: &[f64], target: f64, tol: f64, video_duration: f64, chunk_offset: f64) -> String {
    let min = target;
    let max = target + tol;
    let times: Vec<String> = times.iter().map(|t| format!("{:.2}s", t)).collect();
    let window_info = if chunk_offset > 0.0 {
        format!("（这是整段视频的 [{}]~[{}]s 切片，绝对时间戳要加 {}{}）", chunk_offset, chunk_offset + video_duration, chunk_offset, "s")
    } else {
        String::new()
    };
    let summary = if times.len() <= 15 {
        times.join(", ")
    } else {
        let n = times.len();
        let head: Vec<String> = times.iter().take(5).cloned().collect();
        let tail: Vec<String> = times.iter().rev().take(5).rev().cloned().collect();
        let mid_idx = n / 2;
        let mid: Vec<String> = times.iter().skip(mid_idx.saturating_sub(2)).take(5).cloned().collect();
        format!("前段: {} → 中段: {} → 后段: {} (共 {} 帧)", head.join(", "), mid.join(", "), tail.join(", "), n)
    };
    let mut context = String::new();
    for (k, v) in fields {
        let k = k.trim();
        let v = v.trim();
        if k.is_empty() || v.is_empty() {
            continue;
        }
        context.push_str(&format!("\n**{}**：{}", k, v));
    }
    let frame_count = times.len();
    format!(
        "你是一个专业的视频素材挑选专家。{context}\n\n         这是一段{:.0}秒视频的连续抽帧，共 {} 帧。每张图左上角**已画上时间戳水印**（如 t: 12.5s），\n         时间分布：{summary}\n\n         **任务**：从这些帧里挑出最值得保留的\"插入素材镜头\"{window_info}，每段 {target:.1} 秒（允许 {min:.1}~{max:.1} 秒）。\n\n         **跳过**：黑屏/纯色/过曝/对焦失败/剧烈抖动/长时间静止。\n\n         **输出严格 JSON 数组**（不要任何其他文字）：\n         ```\n         [\n         {{ \"start\": <秒>, \"end\": <秒>, \"reason\": \"<一句话为什么选它>\" }},\n         ...\n         ]\n```\n\n         要求：\n         - **以图上时间戳为准**（图上水印的 t 才是真实时间）\n         - start/end 用时间戳\n         - 只选真正可用的好镜头，宁缺毋滥\n         - 每段尽量在 {min:.1}~{max:.1} 秒之间\n         - reason 中文一句话精炼",
        video_duration,
        frame_count,
        summary = summary,
        context = context,
        target = target,
        min = min,
        max = max,
        window_info = window_info,
    )
}

fn requirement(fields: &[(&str, &str)], target: i64, tol: i64) -> CutRequirement {
    let mut ids = IdSource::new();
    let fs: Vec<ReqField> = fields.iter().map(|(k, v)| ReqField::new(k.to_string(), v.to_string(), &mut ids)).collect();
    CutRequirement { fields: fs, target_duration_ms: target, tolerance_ms: tol }
}

fn frames(times_ms: &[i64]) -> Vec<FrameShot> {
    times_ms
        .iter()
        .map(|t| FrameShot { path: format!("/f/{}.jpg", t), t: *t, data_base64: String::new() })
        .collect()
}

#[test]
fn prompt_for_a_few_frames() {
    let fields = [("素材描述", " 街拍 "), ("用途", ""), ("  ", "x"), ("想要的镜头", "人物走动")];
    let req = requirement(&fields, 5000, 1000);
    let p = build_prompt(&req, &frames(&[0, 1000, 2500]), 10000, 0);
    assert_eq!(p, prompt_in_seconds(&fields, &[0.0, 1.0, 2.5], 5.0, 1.0, 10.0, 0.0));
    assert!(p.contains("\n**素材描述**：街拍"));
    assert!(p.contains("时间分布：0.00s, 1.00s, 2.50s"));
}

#[test]
fn prompt_for_a_later_window() {
    let fields = [("素材描述", "街拍")];
    let req = requirement(&fields, 3500, 1500);
    let p = build_prompt(&req, &frames(&[120000, 121000]), 10000, 120000);
    assert_eq!(p, prompt_in_seconds(&fields, &[120.0, 121.0], 3.5, 1.5, 10.0, 120.0));
    assert!(p.contains("（这是整段视频的 [120]~[130]s 切片，绝对时间戳要加 120s）"));
}

#[test]
fn prompt_for_many_frames_summarises() {
    let ts: Vec<i64> = (0..20).map(|i| i * 1000).collect();
    let secs: Vec<f64> = (0..20).map(|i| i as f64).collect();
    let fields = [("用途", "插入素材")];
    let req = requirement(&fields, 5000, 1000);
    let p = build_prompt(&req, &frames(&ts), 20000, 0);
    assert_eq!(p, prompt_in_seconds(&fields, &secs, 5.0, 1.0, 20.0, 0.0));
    assert!(p.contains("前段: 0.00s, 1.00s, 2.00s, 3.00s, 4.00s → 中段: 8.00s, 9.00s, 10.00s, 11.00s, 12.00s → 后段: 15.00s, 16.00s, 17.00s, 18.00s, 19.00s (共 20 帧)"));
}

#[test]
fn json_array_reply() {
    let r = parse_segments_json("[{\"start\": 1.5, \"end\": 4, \"reason\": \"good\"}, {\"start\": 6, \"end\": 9}]").unwrap();
    assert_eq!(triples(&r), vec![(1500, 4000, Some("good".to_string())), (6000, 9000, None)]);
}

#[test]
fn fenced_reply_with_text_times() {
    let r = parse_segments_json("```json\n[{\"start\":\"2s\",\"end\":\" 5.5s\",\"reason\":\"ok\"}]\n```").unwrap();
    assert_eq!(triples(&r), vec![(2000, 5500, Some("ok".to_string()))]);
}

#[test]
fn reply_with_text_around_the_array() {
    let r = parse_segments_json("Here you go:\n[{\"start\": 0, \"end\": 5, \"reason\": \"a\"}]\nThanks").unwrap();
    assert_eq!(triples(&r), vec![(0, 5000, Some("a".to_string()))]);
}

#[test]
fn backwards_shots_are_dropped() {
    let r = parse_segments_json("[{\"start\": 5, \"end\": 3}, {\"start\": 1, \"end\": 2}]").unwrap();
    assert_eq!(triples(&r), vec![(1000, 2000, None)]);
}

#[test]
fn unreadable_reply_is_an_error() {
    let e = parse_segments_json("[{\"start\":5,\"end\":3}]").unwrap_err();
    assert_eq!(e, "无法从 AI 响应中提取切段信息: [{\"start\":5,\"end\":3}]");
}

#[test]
fn long_unreadable_reply_is_cut_in_the_message() {
    let body = "x".repeat(300);
    let e = parse_segments_json(&body).unwrap_err();
    assert_eq!(e, format!("无法从 AI 响应中提取切段信息: {}", "x".repeat(200)));
}

#[test]
fn reply_that_would_cut_a_character_is_flagged() {
    let body = format!("{}好", "x".repeat(199));
    assert!(segments_from_reply(&body).is_none());
    assert!(segments_from_reply("nothing here").is_some());
}

#[test]
fn text_reply_fallback() {
    let text = "- 0.00s: clear shot of a metro sign\n- 3.5s: 黑屏\n- 10s: stable clear view of people walking";
    let r = parse_segments_json(text).unwrap();
    assert_eq!(
        triples(&r),
        vec![
            (0, 3500, Some("- 0.00s: clear shot of a metro sign".to_string())),
            (10000, 15000, Some("- 10s: stable clear view of people walking".to_string())),
        ]
    );
}

#[test]
fn text_analysis_needs_a_second_apart() {
    let r = parse_text_analysis("t: 1.0s a long positive line\nt: 1.5s 模糊");
    assert!(r.is_empty());
}

#[test]
fn text_analysis_sorted_by_start() {
    let r = parse_text_analysis("20s: a good long description\n25s: 静止\n5s: another good description\n8s: 过曝");
    assert_eq!(
        triples(&r),
        vec![
            (5000, 8000, Some("5s: another good description".to_string())),
            (20000, 25000, Some("20s: a good long description".to_string())),
        ]
    );
}

#[test]
fn content_of_streamed_reply() {
    let raw = "data: {\"choices\":[{\"delta\":{\"content\":\"Hel\"}}]}\n\n: comment\ndata: {\"choices\":[{\"delta\":{\"content\":\"lo\"}}]}\n\ndata: [DONE]\n";
    assert_eq!(extract_content_sse_or_json(raw), "Hello");
}

#[test]
fn content_of_streamed_message_reply() {
    let raw = "data: {\"choices\":[{\"message\":{\"content\":\"whole\"}}]}\n";
    assert_eq!(extract_content_sse_or_json(raw), "whole");
}

#[test]
fn content_of_json_reply() {
    let raw = "{\"choices\":[{\"message\":{\"content\":\"hi there\"}}]}";
    assert_eq!(extract_content_sse_or_json(raw), "hi there");
}

#[test]
fn content_of_anything_else_is_the_text() {
    assert_eq!(extract_content_sse_or_json("plain words"), "plain words");
    assert_eq!(extract_content_sse_or_json("data: nothing useful"), "data: nothing useful");
}

#[test]
fn length_filter() {
    let v = vec![shot(0, 1500, None), shot(0, 2000, None), shot(0, 5000, None), shot(0, 6000, None), shot(0, 6001, None)];
    let kept = filter_shots_by_length(v, 5000, 1000);
    assert_eq!(triples(&kept), vec![(0, 5000, None), (0, 6000, None)]);
    let v2 = vec![shot(0, 1500, None), shot(0, 2000, None), shot(0, 2600, None)];
    let kept2 = filter_shots_by_length(v2, 1500, 1000);
    assert_eq!(triples(&kept2), vec![(0, 2000, None)]);
}

#[test]
fn shots_sorted_by_start_stably() {
    let v = vec![shot(5, 6, Some("b")), shot(1, 2, None), shot(5, 9, Some("c"))];
    let r = sort_shots_by_start(v);
    assert_eq!(triples(&r), vec![(1, 2, None), (5, 6, Some("b".to_string())), (5, 9, Some("c".to_string()))]);
}

#[test]
fn prompt_rounds_halves_as_floats_do() {
    let fields = [("用途", "插入素材")];
    let req = requirement(&fields, 5250, 1000);
    let p = build_prompt(&req, &frames(&[125, 1145]), 12500, 0);
    assert_eq!(p, prompt_in_seconds(&fields, &[0.125, 1.145], 5.25, 1.0, 12.5, 0.0));
    assert!(p.contains("每段 5.2 秒（允许 5.2~6.2 秒）"));
    assert!(p.contains("时间分布：0.12s, 1.15s"));
}
