use cola_cutter::reply::{
    batch_failed, batch_ranges, chat_url, checked_vision_reply, connection_report, frame_base64, http_error,
    image_url, proposals_from_batches, read_failed, vision_reply, FRAME_BATCH, MAX_FRAME_BYTES,
};
use cola_cutter::vision::CutShot;

fn shot(start: i64, end: i64) -> CutShot {
    CutShot { start, end, reason: None }
}

fn pairs(v: &[CutShot]) -> Vec<(i64, i64)> {
    v.iter().map(|s| (s.start, s.end)).collect()
}

#[test]
fn chat_urls() {
    assert_eq!(chat_url("https://api.example.com/v1"), "https://api.example.com/v1/chat/completions");
    assert_eq!(chat_url("https://api.example.com/v1//"), "https://api.example.com/v1/chat/completions");
    assert_eq!(chat_url(""), "/chat/completions");
}

#[test]
fn http_errors_cut_the_body() {
    assert_eq!(http_error("404 Not Found", "missing", 500), "HTTP 404 Not Found: missing");
    let long = "a".repeat(600);
    assert_eq!(http_error("500 Internal Server Error", &long, 500), format!("HTTP 500 Internal Server Error: {}", "a".repeat(500)));
}

#[test]
fn connection_ok_reports_content() {
    let body = "{\"choices\":[{\"message\":{\"content\":\"pong\"}}]}";
    assert_eq!(connection_report(200, "200 OK", body), Ok("OK (HTTP 200 OK, 回复: pong)".to_string()));
}

#[test]
fn connection_ok_with_empty_content() {
    let body = "{\"choices\":[{\"message\":{\"content\":\"\"}}]}";
    assert_eq!(connection_report(200, "200 OK", body), Ok("OK (HTTP 200 OK, 回复: (空))".to_string()));
}

#[test]
fn connection_failure_reports_status_and_body() {
    assert_eq!(connection_report(401, "401 Unauthorized", "bad key"), Err("HTTP 401 Unauthorized: bad key".to_string()));
    assert_eq!(connection_report(302, "302 Found", ""), Err("HTTP 302 Found: ".to_string()));
}

#[test]
fn vision_reply_reads_proposals() {
    let body = "{\"choices\":[{\"message\":{\"content\":\"[{\\\"start\\\": 1, \\\"end\\\": 7, \\\"reason\\\": \\\"r\\\"}]\"}}]}";
    let r = vision_reply(200, "200 OK", body).unwrap();
    assert_eq!(pairs(&r), vec![(1000, 7000)]);
    assert_eq!(r[0].reason, Some("r".to_string()));
}

#[test]
fn vision_reply_failure() {
    let body = "b".repeat(900);
    let e = vision_reply(500, "500 Internal Server Error", &body).unwrap_err();
    assert_eq!(e, format!("HTTP 500 Internal Server Error: {}", "b".repeat(800)));
}

#[test]
fn checked_vision_reply_flags_cut_characters() {
    let body = format!("{}好", "b".repeat(799));
    assert!(checked_vision_reply(500, "500 Internal Server Error", &body).is_none());
    assert!(checked_vision_reply(500, "500 Internal Server Error", "short").is_some());
    let ok = "{\"choices\":[{\"message\":{\"content\":\"[{\\\"start\\\": 0, \\\"end\\\": 3}]\"}}]}";
    let r = checked_vision_reply(200, "200 OK", ok).unwrap().unwrap();
    assert_eq!(pairs(&r), vec![(0, 3000)]);
}

#[test]
fn batches_of_sixteen() {
    assert_eq!(FRAME_BATCH, 16);
    assert_eq!(batch_ranges(0), vec![]);
    assert_eq!(batch_ranges(5), vec![(0, 5)]);
    assert_eq!(batch_ranges(16), vec![(0, 16)]);
    assert_eq!(batch_ranges(33), vec![(0, 16), (16, 32), (32, 33)]);
}

#[test]
fn batch_error_message() {
    assert_eq!(batch_failed(0, "HTTP 500"), "第 1 批分析失败: HTTP 500");
    assert_eq!(batch_failed(2, "x"), "第 3 批分析失败: x");
}

#[test]
fn no_frames_no_proposals() {
    assert_eq!(proposals_from_batches(0, vec![], 5000, 1000).unwrap_err(), "无帧可分析");
}

#[test]
fn proposals_joined_and_filtered() {
    let answers = vec![
        Ok(vec![shot(0, 5000), shot(10000, 11000)]),
        Ok(vec![]),
        Ok(vec![shot(20000, 26000), shot(30000, 36500)]),
    ];
    let r = proposals_from_batches(40, answers, 5000, 1000).unwrap();
    assert_eq!(pairs(&r), vec![(0, 5000), (20000, 26000)]);
}

#[test]
fn first_failing_batch_decides() {
    let answers = vec![Ok(vec![shot(0, 5000)]), Err("boom".to_string()), Err("later".to_string())];
    assert_eq!(proposals_from_batches(40, answers, 5000, 1000).unwrap_err(), "第 2 批分析失败: boom");
}

#[test]
fn frame_payloads() {
    assert_eq!(frame_base64("/f.jpg", b"hello"), Ok("aGVsbG8=".to_string()));
    assert_eq!(frame_base64("/f.jpg", b""), Ok(String::new()));
    let big = vec![0u8; MAX_FRAME_BYTES + 1];
    assert_eq!(frame_base64("/big.jpg", &big), Err("文件过大 (>1.5MB): /big.jpg".to_string()));
    let edge = vec![0u8; MAX_FRAME_BYTES];
    assert!(frame_base64("/edge.jpg", &edge).is_ok());
}

#[test]
fn base64_matches_the_alphabet() {
    assert_eq!(frame_base64("p", &[0xfb, 0xff]), Ok("+/8=".to_string()));
    assert_eq!(frame_base64("p", b"Ma"), Ok("TWE=".to_string()));
    assert_eq!(frame_base64("p", b"Man"), Ok("TWFu".to_string()));
}

#[test]
fn frame_texts() {
    assert_eq!(image_url("QUJD"), "data:image/jpeg;base64,QUJD");
    assert_eq!(read_failed("/f.jpg", "not found"), "读文件失败 /f.jpg: not found");
}
