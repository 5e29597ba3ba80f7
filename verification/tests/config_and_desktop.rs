use lycan::config::{
    app_dir_in, apps_dir_in, config_path_in, created_date, icon_path_in, join_path, sort_by_name,
    tuning_path_in, webview_data_dir_in, AppConfig, Timestamp,
};
use lycan::desktop::{desktop_entry, desktop_file_name, desktop_file_path_in, window_class};

fn app(id: &str, name: &str, url: &str) -> AppConfig {
    AppConfig {
        id: id.to_string(),
        name: name.to_string(),
        url: url.to_string(),
        created_at: Timestamp { secs: 1_700_000_000, nanos: 0 },
    }
}

#[test]
fn join_path_follows_pathbuf_push() {
    assert_eq!(join_path(b"/home/u", b"lycan"), b"/home/u/lycan".to_vec());
    assert_eq!(join_path(b"/home/u/", b"lycan"), b"/home/u/lycan".to_vec());
    assert_eq!(join_path(b"", b"lycan"), b"lycan".to_vec());
    assert_eq!(join_path(b"/home/u", b"/etc"), b"/etc".to_vec());
    assert_eq!(join_path(b"/home/u", b""), b"/home/u/".to_vec());
    for (b, c) in [("/a/b", "c"), ("/a/b/", "c"), ("", "c"), ("a", "/c"), ("a", "")] {
        let expected = std::path::Path::new(b).join(c);
        assert_eq!(
            join_path(b.as_bytes(), c.as_bytes()),
            expected.as_os_str().as_encoded_bytes().to_vec()
        );
    }
}

#[test]
fn app_paths_live_under_the_data_dir() {
    let base = b"/home/alice/.local/share";
    assert_eq!(apps_dir_in(base), b"/home/alice/.local/share/lycan/apps".to_vec());
    assert_eq!(app_dir_in(base, "whatsapp"), b"/home/alice/.local/share/lycan/apps/whatsapp".to_vec());
    assert_eq!(
        icon_path_in(base, "whatsapp"),
        b"/home/alice/.local/share/lycan/apps/whatsapp/icon.png".to_vec()
    );
    assert_eq!(
        config_path_in(base, "youtube"),
        b"/home/alice/.local/share/lycan/apps/youtube/config.json".to_vec()
    );
    assert_eq!(
        webview_data_dir_in(base, "youtube"),
        b"/home/alice/.local/share/lycan/apps/youtube/webview".to_vec()
    );
}

#[test]
fn app_paths_keep_a_data_dir_that_is_not_utf8() {
    let base: &[u8] = b"/home/\xe9l\xe8ve/.local/share";
    assert_eq!(
        app_dir_in(base, "whatsapp"),
        b"/home/\xe9l\xe8ve/.local/share/lycan/apps/whatsapp".to_vec()
    );
    assert_eq!(
        tuning_path_in(base),
        b"/home/\xe9l\xe8ve/.local/share/lycan/webkit-tuning.json".to_vec()
    );
}

#[test]
fn new_app_config_uses_the_slug_of_the_name() {
    let t = Timestamp { secs: 1_700_000_000, nanos: 42 };
    let c = AppConfig::new("My Test String!!!1!1", "https://example.com", t);
    assert_eq!(c.id, "my-test-string-1-1");
    assert_eq!(c.name, "My Test String!!!1!1");
    assert_eq!(c.url, "https://example.com");
    assert_eq!(c.created_at, t);
    assert_eq!(AppConfig::new("You & Me", "u", t).id, "you-me");
    assert_eq!(AppConfig::new("Æúű--cool?", "u", t).id, "aeuu-cool");
}

#[test]
fn duplicate_copies_every_field() {
    let a = app("x", "X", "https://x.org");
    let b = a.duplicate();
    assert_eq!((b.id, b.name, b.url, b.created_at), (a.id, a.name, a.url, a.created_at));
}

#[test]
fn apps_sort_by_lowercased_name_stably() {
    let apps = vec![
        app("yt", "YouTube", "u1"),
        app("disc", "discord", "u2"),
        app("wa", "WhatsApp", "u3"),
        app("d2", "Discord", "u4"),
        app("a", "apple", "u5"),
    ];
    let sorted = sort_by_name(apps);
    let ids: Vec<&str> = sorted.iter().map(|a| a.id.as_str()).collect();
    assert_eq!(ids, vec!["a", "disc", "d2", "wa", "yt"]);
}

#[test]
fn sorting_nothing_gives_nothing() {
    assert!(sort_by_name(Vec::new()).is_empty());
}

#[test]
fn desktop_names_share_the_window_class() {
    assert_eq!(window_class("whatsapp"), "lycan-whatsapp");
    assert_eq!(desktop_file_name("whatsapp"), "lycan-whatsapp.desktop");
    assert_eq!(
        desktop_file_path_in(b"/home/alice/.local/share", "whatsapp"),
        b"/home/alice/.local/share/applications/lycan-whatsapp.desktop".to_vec()
    );
}

#[test]
fn desktop_entry_text() {
    let c = app("whatsapp", "WhatsApp", "https://web.whatsapp.com");
    let icon = "/home/alice/.local/share/lycan/apps/whatsapp/icon.png";
    let expected = format!(
        "[Desktop Entry]\n\
         Name={name}\n\
         Exec={exec} open {id}\n\
         Icon={icon}\n\
         Type=Application\n\
         Categories=Network;WebApp;\n\
         StartupWMClass=lycan-{id}\n",
        name = c.name,
        exec = "/usr/bin/lycan",
        id = c.id,
        icon = icon,
    );
    assert_eq!(desktop_entry(&c, "/usr/bin/lycan", icon), expected);
}

#[test]
fn editing_keeps_id_and_creation_time() {
    let a = app("yt", "YouTube", "https://www.youtube.com");
    let (b, changed) = a.edited("YT", "https://www.youtube.com");
    assert!(!changed);
    assert_eq!((b.id.as_str(), b.name.as_str(), b.url.as_str()), ("yt", "YT", "https://www.youtube.com"));
    assert_eq!(b.created_at, a.created_at);
    let (c, changed) = a.edited("YouTube", "https://music.youtube.com");
    assert!(changed);
    assert_eq!(c.url, "https://music.youtube.com");
    assert_eq!(c.id, "yt");
}

#[test]
fn creation_dates_are_utc_days() {
    assert_eq!(created_date(Timestamp { secs: 0, nanos: 0 }), "1970-01-01");
    assert_eq!(created_date(Timestamp { secs: 1_700_000_000, nanos: 5 }), "2023-11-14");
    assert_eq!(created_date(Timestamp { secs: 86_399, nanos: 0 }), "1970-01-01");
    assert_eq!(created_date(Timestamp { secs: i64::MAX, nanos: 0 }), "");
}

#[test]
fn tuning_file_path() {
    assert_eq!(
        tuning_path_in(b"/home/alice/.local/share"),
        b"/home/alice/.local/share/lycan/webkit-tuning.json".to_vec()
    );
}
