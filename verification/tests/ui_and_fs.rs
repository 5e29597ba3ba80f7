use lycan::config::{AppConfig, Timestamp};
use lycan::fs_private::{dir_owner_only, file_owner_only};
use lycan::tui::{App, FormKind, Mode};
use lycan::ui::{
    confirm_target, count_label, field_text, form_title, rows_are_in_range, screen_of,
    search_bar_text, search_count_hint, status_text, table_content, table_rows, truncate_url,
    Popup, Screen, TableContent,
};

fn app(id: &str, name: &str, url: &str) -> AppConfig {
    AppConfig {
        id: id.to_string(),
        name: name.to_string(),
        url: url.to_string(),
        created_at: Timestamp { secs: 86_400, nanos: 5 },
    }
}

#[test]
fn counts() {
    assert_eq!(count_label(0), "0 apps");
    assert_eq!(count_label(1), "1 app");
    assert_eq!(count_label(2), "2 apps");
    assert_eq!(count_label(1234), "1234 apps");
}

#[test]
fn search_texts() {
    assert_eq!(search_bar_text("you", true), " / you▌");
    assert_eq!(search_bar_text("you", false), " / you");
    assert_eq!(search_count_hint("", 1, 3), "");
    assert_eq!(search_count_hint("y", 1, 30), " (1/30)");
}

#[test]
fn urls_are_shortened() {
    assert_eq!(truncate_url("https://www.youtube.com/"), "www.youtube.com");
    assert_eq!(truncate_url("http://example.com//"), "example.com");
    assert_eq!(truncate_url("https://a.com/x?u=http://b.org/"), "a.com/x?u=b.org");
    assert_eq!(truncate_url("example.com"), "example.com");
}

#[test]
fn rows_follow_the_filter_and_mark_the_selection() {
    let mut a = App::new(vec![
        app("a", "Alpha", "https://alpha.io/"),
        app("b", "Beta", "http://beta.io"),
        app("c", "Gamma", "https://gamma.io"),
    ]);
    a.filtered_indices = vec![0, 2];
    a.selected = 1;
    let rows = table_rows(&a);
    assert_eq!(rows.len(), 2);
    assert_eq!(rows[0].marker, "  ");
    assert!(!rows[0].selected);
    assert_eq!(rows[0].name, "Alpha");
    assert_eq!(rows[0].url, "alpha.io");
    assert_eq!(rows[1].marker, ">>");
    assert!(rows[1].selected);
    assert_eq!(rows[1].name, "Gamma");
    assert_eq!(rows[1].created_at, Timestamp { secs: 86_400, nanos: 5 });
}

#[test]
fn popup_texts() {
    assert_eq!(status_text("Created 'X'."), " Created 'X'.");
    assert_eq!(form_title(FormKind::Add), " Add PWA ");
    assert_eq!(form_title(FormKind::Edit(3)), " Edit PWA ");
    assert_eq!(field_text("abc", true), "abc▌");
    assert_eq!(field_text("abc", false), "abc");
    let a = App::new(vec![app("a", "Alpha", "u")]);
    assert_eq!(confirm_target(&a), "Alpha");
    assert_eq!(confirm_target(&App::new(Vec::new())), "?");
}

#[test]
fn owner_only_modes() {
    assert_eq!(dir_owner_only(true), Some(0o700));
    assert_eq!(dir_owner_only(false), None);
    assert_eq!(file_owner_only(true), Some(0o600));
    assert_eq!(file_owner_only(false), None);
}

#[test]
fn screen_parts_follow_the_mode() {
    let mut a = App::new(vec![app("a", "Alpha", "u")]);
    assert_eq!(screen_of(&a), Screen { search_bar: false, popup: Popup::NoPopup });
    a.mode = Mode::Search;
    assert_eq!(screen_of(&a), Screen { search_bar: true, popup: Popup::NoPopup });
    a.mode = Mode::Normal;
    a.search_query = "al".to_string();
    assert_eq!(screen_of(&a), Screen { search_bar: true, popup: Popup::NoPopup });
    a.mode = Mode::Form(FormKind::Edit(0));
    assert_eq!(screen_of(&a).popup, Popup::Form(FormKind::Edit(0)));
    a.mode = Mode::ConfirmDelete;
    assert_eq!(screen_of(&a).popup, Popup::ConfirmDelete);
}

#[test]
fn table_content_messages() {
    let mut a = App::new(vec![app("a", "Alpha", "u")]);
    assert_eq!(table_content(&a), TableContent::Rows);
    a.filtered_indices.clear();
    assert_eq!(table_content(&a), TableContent::NoMatches);
    assert_eq!(table_content(&App::new(Vec::new())), TableContent::NoApps);
}

#[test]
fn row_range_check() {
    let mut a = App::new(vec![app("a", "Alpha", "u")]);
    assert!(rows_are_in_range(&a));
    a.filtered_indices = vec![0, 1];
    assert!(!rows_are_in_range(&a));
}
