use cola_cutter::config::{
    config_dir, config_path, default_chunk_secs, default_fps, default_frame_size, default_group_by_video,
    default_requirement_fields, default_target_duration, default_tolerance, default_trim_last_short,
    default_use_ai, default_used_video_action, home_from_env, home_from_username, join_path, now_iso,
    stamp_of, templates_path, uuid_simple, AIConfig, CutRequirement, CutTemplate, IdSource, ReqField,
    TemplateList,
};

fn is_uid(id: &str) -> bool {
    let Some(rest) = id.strip_prefix('u') else { return false };
    let parts: Vec<&str> = rest.split('_').collect();
    parts.len() == 2
        && !parts[0].is_empty()
        && parts[0].chars().all(|c| c.is_ascii_digit())
        && !parts[1].is_empty()
        && parts[1].chars().all(|c| c.is_ascii_digit())
}

#[test]
fn next_id_counts_up_from_zero() {
    let mut ids = IdSource::new();
    assert_eq!(ids.next_id(123), "u123_0");
    assert_eq!(ids.next_id(123), "u123_1");
    assert_eq!(ids.next_id(7), "u7_2");
}

#[test]
fn ids_with_same_clock_reading_differ() {
    let mut ids = IdSource::new();
    let a = ids.next_id(42);
    let b = ids.next_id(42);
    assert_ne!(a, b);
}

#[test]
fn uuid_simple_has_clock_and_counter() {
    let mut ids = IdSource::new();
    let a = uuid_simple(&mut ids);
    let b = uuid_simple(&mut ids);
    assert!(is_uid(&a), "{}", a);
    assert!(a.ends_with("_0"));
    assert!(b.ends_with("_1"));
    assert_ne!(a, b);
}

#[test]
fn stamp_is_ts_and_seconds() {
    assert_eq!(stamp_of(0), "ts:0");
    assert_eq!(stamp_of(1700000000), "ts:1700000000");
    let now = now_iso();
    assert!(now.starts_with("ts:"));
    assert!(now[3..].chars().all(|c| c.is_ascii_digit()));
    assert!(now.len() > 3);
}

#[test]
fn req_field_new_keeps_key_and_value() {
    let mut ids = IdSource::new();
    let f = ReqField::new("用途".to_string(), "插入素材".to_string(), &mut ids);
    assert_eq!(f.key, "用途");
    assert_eq!(f.value, "插入素材");
    assert!(is_uid(&f.id));
    let g = ReqField::new("k".to_string(), "v".to_string(), &mut ids);
    assert_ne!(f.id, g.id);
}

#[test]
fn default_fields_are_the_four_defaults() {
    let mut ids = IdSource::new();
    let fs = default_requirement_fields(&mut ids);
    let pairs: Vec<(&str, &str)> = fs.iter().map(|f| (f.key.as_str(), f.value.as_str())).collect();
    assert_eq!(
        pairs,
        vec![
            ("素材描述", "随手拍/混剪通用素材"),
            ("用途", "用于二次剪辑的插入素材"),
            ("想要的镜头", "主体清晰、构图好、有明确动作"),
            ("不要的镜头", "黑屏/模糊/对焦失败/剧烈抖动/静止"),
        ]
    );
    let mut all_ids: Vec<&str> = fs.iter().map(|f| f.id.as_str()).collect();
    all_ids.sort();
    all_ids.dedup();
    assert_eq!(all_ids.len(), 4);
}

#[test]
fn defaults_have_their_values() {
    assert_eq!(default_target_duration(), 5000);
    assert_eq!(default_tolerance(), 1000);
    assert!(default_use_ai());
    assert!(!default_group_by_video());
    assert!(default_trim_last_short());
    assert_eq!(default_fps(), 1000);
    assert_eq!(default_frame_size(), 480);
    assert_eq!(default_chunk_secs(), 120000);
    assert_eq!(default_used_video_action(), "none");
}

#[test]
fn default_requirement_and_config() {
    let mut ids = IdSource::new();
    let r = CutRequirement::default_with(&mut ids);
    assert_eq!(r.fields.len(), 4);
    assert_eq!(r.target_duration_ms, 5000);
    assert_eq!(r.tolerance_ms, 1000);
    let c = AIConfig::default_with(&mut ids);
    assert_eq!(c.base_url, "");
    assert_eq!(c.api_key, "");
    assert_eq!(c.model, "");
    assert_eq!(c.fps, 1000);
    assert_eq!(c.frame_max_size, 480);
    assert_eq!(c.chunk_secs, 120000);
    assert!(c.use_ai);
    assert!(!c.group_by_video);
    assert!(c.trim_last_short_segment);
    assert!(c.current_template_id.is_none());
    assert_eq!(c.used_video_action, "none");
}

#[test]
fn builtin_template() {
    let mut ids = IdSource::new();
    let t = CutTemplate::new_builtin("通用".to_string(), CutRequirement::default_with(&mut ids));
    assert_eq!(t.id, "builtin-default");
    assert_eq!(t.name, "通用");
    assert!(t.builtin);
    assert_eq!(t.updated_at, "");
}

#[test]
fn initial_list_holds_the_builtin() {
    let mut ids = IdSource::new();
    let l = TemplateList::initial(&mut ids);
    assert_eq!(l.templates.len(), 1);
    assert_eq!(l.templates[0].id, "builtin-default");
    assert_eq!(l.templates[0].name, "通用素材（内置）");
    assert!(l.templates[0].builtin);
}

#[test]
fn save_new_template_appends() {
    let mut ids = IdSource::new();
    let mut l = TemplateList::initial(&mut ids);
    let req = CutRequirement::default_with(&mut ids);
    let t = l.save_template("新模板".to_string(), req, None, &mut ids).unwrap();
    assert_eq!(l.templates.len(), 2);
    assert_eq!(l.templates[1].id, t.id);
    assert_eq!(l.templates[1].name, "新模板");
    assert!(!t.builtin);
    assert!(is_uid(&t.id));
    assert!(t.updated_at.starts_with("ts:"));
}

#[test]
fn save_over_existing_keeps_place_and_flag() {
    let mut ids = IdSource::new();
    let mut l = TemplateList::initial(&mut ids);
    let req = CutRequirement::default_with(&mut ids);
    let mut req2 = CutRequirement::default_with(&mut ids);
    req2.target_duration_ms = 8000;
    let t = l.save_template("A".to_string(), req, None, &mut ids).unwrap();
    let u = l.save_template("B".to_string(), req2, Some(t.id.clone()), &mut ids).unwrap();
    assert_eq!(u.id, t.id);
    assert_eq!(l.templates.len(), 2);
    assert_eq!(l.templates[1].name, "B");
    assert_eq!(l.templates[1].requirement.target_duration_ms, 8000);
    let req3 = CutRequirement::default_with(&mut ids);
    let b = l.save_template("内置改名".to_string(), req3, Some("builtin-default".to_string()), &mut ids).unwrap();
    assert!(b.builtin);
    assert_eq!(l.templates[0].name, "内置改名");
}

#[test]
fn save_over_missing_template_fails() {
    let mut ids = IdSource::new();
    let mut l = TemplateList::initial(&mut ids);
    let req = CutRequirement::default_with(&mut ids);
    let e = l.save_template("A".to_string(), req, Some("nope".to_string()), &mut ids).err().unwrap();
    assert_eq!(e, "模板不存在: nope");
    assert_eq!(l.templates.len(), 1);
}

#[test]
fn delete_builtin_is_refused() {
    let mut ids = IdSource::new();
    let mut l = TemplateList::initial(&mut ids);
    let e = l.delete_template(&"builtin-default".to_string()).unwrap_err();
    assert_eq!(e, "内置模板不可删除");
    assert_eq!(l.templates.len(), 1);
}

#[test]
fn delete_missing_is_refused() {
    let mut ids = IdSource::new();
    let mut l = TemplateList::initial(&mut ids);
    let e = l.delete_template(&"x".to_string()).unwrap_err();
    assert_eq!(e, "模板不存在: x");
}

#[test]
fn delete_undoes_a_new_save() {
    let mut ids = IdSource::new();
    let mut l = TemplateList::initial(&mut ids);
    let req = CutRequirement::default_with(&mut ids);
    let before: Vec<String> = l.templates.iter().map(|t| t.id.clone()).collect();
    let t = l.save_template("tmp".to_string(), req, None, &mut ids).unwrap();
    l.delete_template(&t.id).unwrap();
    let after: Vec<String> = l.templates.iter().map(|t| t.id.clone()).collect();
    assert_eq!(before, after);
}

#[test]
fn saved_template_found_again_by_id() {
    let mut ids = IdSource::new();
    let mut l = TemplateList::initial(&mut ids);
    let req = CutRequirement::default_with(&mut ids);
    let t = l.save_template("A".to_string(), req, None, &mut ids).unwrap();
    assert_eq!(l.position(&t.id), Some(1));
    let req2 = CutRequirement::default_with(&mut ids);
    l.save_template("B".to_string(), req2, Some(t.id.clone()), &mut ids).unwrap();
    assert_eq!(l.position(&t.id), Some(1));
    assert_eq!(l.position(&"zzz".to_string()), None);
}

#[test]
fn config_locations() {
    assert_eq!(config_dir("/Users/amy"), "/Users/amy/Library/Application Support/com.cola.cutter");
    assert_eq!(config_dir("/Users/amy/"), "/Users/amy/Library/Application Support/com.cola.cutter");
    assert_eq!(config_path("/d"), "/d/ai_config.json");
    assert_eq!(templates_path("/d"), "/d/templates.json");
}

#[test]
fn join_path_like_path_join() {
    assert_eq!(join_path("a", "b"), "a/b");
    assert_eq!(join_path("a/", "b"), "a/b");
    assert_eq!(join_path("", "b"), "b");
    assert_eq!(join_path("a", "/abs"), "/abs");
    assert_eq!(join_path("a", "b"), std::path::Path::new("a").join("b").to_string_lossy());
}

#[test]
fn home_from_env_needs_users_folder() {
    assert_eq!(home_from_env("/Users/bob"), Some("/Users/bob".to_string()));
    assert_eq!(home_from_env("/Users/bob/sandbox"), Some("/Users/bob/sandbox".to_string()));
    assert_eq!(home_from_env("/home/bob"), None);
}

#[test]
fn home_from_username_trims() {
    assert_eq!(home_from_username(" bob\n"), Some("/Users/bob".to_string()));
    assert_eq!(home_from_username("  \n"), None);
    assert_eq!(home_from_username(""), None);
}
