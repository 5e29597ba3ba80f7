use lycan::tuning::{
    choose_profile, compute_recommended, env_truthy, is_drm_card_name, is_low_memory,
    is_nvidia_vendor_id, is_x11_session, nvidia_detected, parse_meminfo_total_kb,
    webkit_environment_plan, DrmEntry, ProfileChoice, WebKitTuningProfile, WebkitEnvPlan,
};

fn profile(version: u32, dmabuf: bool, comp: bool) -> WebKitTuningProfile {
    WebKitTuningProfile { version, disable_dmabuf: dmabuf, disable_compositing: comp }
}

#[test]
fn default_profile_disables_nothing() {
    assert_eq!(WebKitTuningProfile::default(), profile(1, false, false));
}

#[test]
fn recommendation_follows_gpu_and_session() {
    assert_eq!(compute_recommended(false, false), profile(1, false, false));
    assert_eq!(compute_recommended(false, true), profile(1, false, false));
    assert_eq!(compute_recommended(true, false), profile(1, true, false));
    assert_eq!(compute_recommended(true, true), profile(1, true, true));
}

#[test]
fn saved_profile_is_kept_unless_missing_or_version_zero() {
    let rec = profile(1, true, true);
    let saved = profile(2, false, true);
    assert_eq!(choose_profile(Some(saved), rec), ProfileChoice::Saved(saved));
    assert_eq!(choose_profile(Some(profile(0, false, false)), rec), ProfileChoice::Recommended(rec));
    assert_eq!(choose_profile(None, rec), ProfileChoice::Recommended(rec));
}

#[test]
fn drm_card_names() {
    assert!(is_drm_card_name("card0"));
    assert!(is_drm_card_name("card12"));
    assert!(!is_drm_card_name("card0-HDMI-A-1"));
    assert!(!is_drm_card_name("card"));
    assert!(!is_drm_card_name("renderD128"));
    assert!(!is_drm_card_name("cardx"));
}

#[test]
fn nvidia_vendor_id() {
    assert!(is_nvidia_vendor_id("0x10de\n"));
    assert!(is_nvidia_vendor_id("  0X10DE "));
    assert!(!is_nvidia_vendor_id("0x8086\n"));
    assert!(!is_nvidia_vendor_id("0x10de0"));
}

#[test]
fn nvidia_detection() {
    let entry = |n: &str, v: Option<&str>| DrmEntry { name: n.to_string(), vendor: v.map(String::from) };
    let intel = vec![entry("card0", Some("0x8086\n")), entry("card0-DP-1", Some("0x10de"))];
    assert!(!nvidia_detected(&intel, false));
    assert!(nvidia_detected(&intel, true));
    let nv = vec![entry("card0", None), entry("card1", Some("0x10de\n"))];
    assert!(nvidia_detected(&nv, false));
    assert!(!nvidia_detected(&Vec::new(), false));
}

#[test]
fn truthy_overrides() {
    for v in ["1", "true", "YES", "On"] {
        assert_eq!(env_truthy(Some(v)), Some(true), "{}", v);
    }
    for v in ["0", "False", "no", "OFF"] {
        assert_eq!(env_truthy(Some(v)), Some(false), "{}", v);
    }
    assert_eq!(env_truthy(Some("maybe")), None);
    assert_eq!(env_truthy(Some("")), None);
    assert_eq!(env_truthy(None), None);
}

#[test]
fn session_type() {
    assert!(is_x11_session(Some("x11"), true, false));
    assert!(!is_x11_session(Some("wayland"), false, true));
    assert!(is_x11_session(Some("tty"), false, true));
    assert!(!is_x11_session(None, true, true));
    assert!(is_x11_session(None, false, true));
    assert!(!is_x11_session(None, false, false));
}

#[test]
fn environment_plan() {
    let p = profile(1, true, false);
    assert_eq!(
        webkit_environment_plan(&p, false, None, false, None, false, None),
        WebkitEnvPlan { set_disable_dmabuf: true, set_disable_compositing: false }
    );
    assert_eq!(
        webkit_environment_plan(&p, true, Some(true), false, Some(true), false, None),
        WebkitEnvPlan { set_disable_dmabuf: false, set_disable_compositing: true }
    );
    assert_eq!(
        webkit_environment_plan(&p, false, Some(false), false, None, true, Some(false)),
        WebkitEnvPlan { set_disable_dmabuf: false, set_disable_compositing: true }
    );
    assert_eq!(
        webkit_environment_plan(&p, false, None, false, None, true, Some(true)),
        WebkitEnvPlan { set_disable_dmabuf: true, set_disable_compositing: false }
    );
    assert_eq!(
        webkit_environment_plan(&profile(1, false, true), false, None, false, Some(false), true, Some(false)),
        WebkitEnvPlan { set_disable_dmabuf: false, set_disable_compositing: false }
    );
}

#[test]
fn low_memory_threshold() {
    assert!(!is_low_memory(None));
    assert!(!is_low_memory(Some(0)));
    assert!(is_low_memory(Some(2 * 1024 * 1024)));
    assert!(!is_low_memory(Some(4 * 1024 * 1024)));
    assert!(!is_low_memory(Some(16 * 1024 * 1024)));
}

#[test]
fn meminfo_total() {
    let text = "MemTotal:       16318480 kB\nMemFree:         1234567 kB\n";
    assert_eq!(parse_meminfo_total_kb(text), Some(16318480));
    assert_eq!(parse_meminfo_total_kb("MemFree: 1 kB\nMemTotal: 42 kB"), Some(42));
    assert_eq!(parse_meminfo_total_kb("MemTotal:\r\nMemTotal: 5 kB\n"), None);
    assert_eq!(parse_meminfo_total_kb("MemTotal: abc\n"), None);
    assert_eq!(parse_meminfo_total_kb("Mem: 5\n"), None);
    assert_eq!(parse_meminfo_total_kb(""), None);
    assert_eq!(parse_meminfo_total_kb("MemTotal: 7 kB\r\n"), Some(7));
}
