use lycan::config::{AppConfig, Timestamp};
use lycan::tui::{
    handle_confirm_keys, handle_event, handle_form_keys, handle_normal_keys, handle_search_keys,
    App, Effect, FormField, FormKind, Key, Mode,
};

fn app(id: &str, name: &str, url: &str) -> AppConfig {
    AppConfig {
        id: id.to_string(),
        name: name.to_string(),
        url: url.to_string(),
        created_at: Timestamp { secs: 0, nanos: 0 },
    }
}

fn sample() -> App {
    App::new(vec![
        app("discord", "Discord", "https://discord.com/app"),
        app("whatsapp", "WhatsApp", "https://web.whatsapp.com"),
        app("youtube", "YouTube", "https://www.youtube.com"),
    ])
}

fn type_text(a: &mut App, s: &str) {
    for c in s.chars() {
        assert_eq!(handle_event(a, Key::Char(c), false), Effect::Nothing);
    }
}

#[test]
fn new_shows_every_app() {
    let a = sample();
    assert_eq!(a.mode, Mode::Normal);
    assert_eq!(a.filtered_indices, vec![0, 1, 2]);
    assert_eq!(a.selected, 0);
    assert!(a.status_message.is_none());
    assert!(!a.should_quit);
    assert_eq!(a.selected_app().unwrap().id, "discord");
}

#[test]
fn new_on_nothing() {
    let a = App::new(Vec::new());
    assert!(a.filtered_indices.is_empty());
    assert!(a.selected_app().is_none());
}

#[test]
fn j_and_k_move_within_bounds() {
    let mut a = sample();
    handle_normal_keys(&mut a, Key::Char('k'));
    assert_eq!(a.selected, 0);
    handle_normal_keys(&mut a, Key::Char('j'));
    handle_normal_keys(&mut a, Key::Down);
    handle_normal_keys(&mut a, Key::Char('j'));
    assert_eq!(a.selected, 2);
    handle_normal_keys(&mut a, Key::Up);
    assert_eq!(a.selected, 1);
    assert_eq!(a.selected_app().unwrap().name, "WhatsApp");
}

#[test]
fn q_quits() {
    let mut a = sample();
    assert_eq!(handle_event(&mut a, Key::Char('q'), false), Effect::Nothing);
    assert!(a.should_quit);
}

#[test]
fn o_and_enter_open_the_selected_app() {
    let mut a = sample();
    handle_event(&mut a, Key::Char('j'), false);
    assert_eq!(handle_event(&mut a, Key::Char('o'), false), Effect::Open { id: "whatsapp".into() });
    assert_eq!(handle_event(&mut a, Key::Enter, false), Effect::Open { id: "whatsapp".into() });
    let mut empty = App::new(Vec::new());
    assert_eq!(handle_event(&mut empty, Key::Enter, false), Effect::Nothing);
}

#[test]
fn search_filters_by_name_or_url_ignoring_case() {
    let mut a = sample();
    handle_event(&mut a, Key::Char('/'), false);
    assert_eq!(a.mode, Mode::Search);
    type_text(&mut a, "TUBE");
    assert_eq!(a.search_query, "TUBE");
    assert_eq!(a.filtered_indices, vec![2]);
    handle_event(&mut a, Key::Backspace, false);
    handle_event(&mut a, Key::Backspace, false);
    handle_event(&mut a, Key::Backspace, false);
    handle_event(&mut a, Key::Backspace, false);
    assert_eq!(a.filtered_indices, vec![0, 1, 2]);
    type_text(&mut a, "web.");
    assert_eq!(a.filtered_indices, vec![1]);
    type_text(&mut a, "zzz");
    assert!(a.filtered_indices.is_empty());
    assert_eq!(a.selected, 0);
    handle_event(&mut a, Key::Esc, false);
    assert_eq!(a.mode, Mode::Normal);
    assert_eq!(a.search_query, "");
    assert_eq!(a.filtered_indices, vec![0, 1, 2]);
}

#[test]
fn search_keeps_selection_in_range() {
    let mut a = sample();
    handle_event(&mut a, Key::Char('j'), false);
    handle_event(&mut a, Key::Char('j'), false);
    assert_eq!(a.selected, 2);
    handle_event(&mut a, Key::Char('/'), false);
    type_text(&mut a, "d");
    assert_eq!(a.filtered_indices, vec![0]);
    assert_eq!(a.selected, 0);
    handle_search_keys(&mut a, Key::Enter);
    assert_eq!(a.mode, Mode::Normal);
    assert_eq!(a.search_query, "d");
}

#[test]
fn slash_clears_query_without_refiltering() {
    let mut a = sample();
    a.search_query = "you".to_string();
    a.apply_filter();
    assert_eq!(a.filtered_indices, vec![2]);
    handle_event(&mut a, Key::Char('/'), false);
    assert_eq!(a.search_query, "");
    assert_eq!(a.filtered_indices, vec![2]);
}

#[test]
fn add_form_flow() {
    let mut a = sample();
    a.status_message = Some(("old".to_string(), false));
    handle_event(&mut a, Key::Char('a'), false);
    assert_eq!(a.mode, Mode::Form(FormKind::Add));
    assert_eq!(a.form_field, FormField::Name);
    assert!(a.status_message.is_none());
    type_text(&mut a, "  Gmail ");
    handle_event(&mut a, Key::Enter, false);
    assert_eq!(a.form_field, FormField::Url);
    type_text(&mut a, "mail.google.comX");
    handle_event(&mut a, Key::Backspace, false);
    assert_eq!(a.name_input, "  Gmail ");
    assert_eq!(a.url_input, "mail.google.com");
    let e = handle_event(&mut a, Key::Enter, false);
    assert_eq!(e, Effect::Create { name: "Gmail".into(), url: "https://mail.google.com".into() });
    assert_eq!(a.mode, Mode::Form(FormKind::Add));
}

#[test]
fn ctrl_s_saves_from_either_field() {
    let mut a = sample();
    handle_event(&mut a, Key::Char('a'), false);
    type_text(&mut a, "Site");
    handle_event(&mut a, Key::Tab, false);
    type_text(&mut a, "http://example.org");
    let e = handle_form_keys(&mut a, Key::Char('s'), true);
    assert_eq!(e, Effect::Create { name: "Site".into(), url: "http://example.org".into() });
}

#[test]
fn empty_fields_are_refused() {
    let mut a = sample();
    handle_event(&mut a, Key::Char('a'), false);
    type_text(&mut a, "   ");
    let e = handle_form_keys(&mut a, Key::Char('s'), true);
    assert_eq!(e, Effect::Nothing);
    assert_eq!(a.status_message, Some(("Name and URL are required.".to_string(), true)));
    assert_eq!(a.mode, Mode::Form(FormKind::Add));
}

#[test]
fn invalid_url_is_refused() {
    let mut a = sample();
    handle_event(&mut a, Key::Char('a'), false);
    type_text(&mut a, "Bad");
    handle_event(&mut a, Key::Tab, false);
    type_text(&mut a, "exa mple.com");
    let e = handle_event(&mut a, Key::Enter, false);
    assert_eq!(e, Effect::Nothing);
    assert_eq!(a.status_message, Some(("Invalid URL.".to_string(), true)));
}

#[test]
fn edit_form_updates_the_selected_app() {
    let mut a = sample();
    handle_event(&mut a, Key::Char('j'), false);
    handle_event(&mut a, Key::Char('e'), false);
    assert_eq!(a.mode, Mode::Form(FormKind::Edit(1)));
    assert_eq!(a.name_input, "WhatsApp");
    assert_eq!(a.url_input, "https://web.whatsapp.com");
    type_text(&mut a, " Web");
    let e = handle_form_keys(&mut a, Key::Char('s'), true);
    assert_eq!(
        e,
        Effect::Update {
            id: "whatsapp".into(),
            name: "WhatsApp Web".into(),
            url: "https://web.whatsapp.com".into()
        }
    );
}

#[test]
fn esc_leaves_the_form() {
    let mut a = sample();
    handle_event(&mut a, Key::Char('a'), false);
    a.status_message = Some(("x".to_string(), true));
    handle_event(&mut a, Key::Esc, false);
    assert_eq!(a.mode, Mode::Normal);
    assert!(a.status_message.is_none());
}

#[test]
fn tab_twice_returns_to_the_same_field() {
    let mut a = sample();
    handle_event(&mut a, Key::Char('a'), false);
    handle_event(&mut a, Key::Tab, false);
    assert_eq!(a.form_field, FormField::Url);
    handle_event(&mut a, Key::BackTab, false);
    assert_eq!(a.form_field, FormField::Name);
}

#[test]
fn delete_needs_confirmation() {
    let mut a = sample();
    handle_event(&mut a, Key::Char('d'), false);
    assert_eq!(a.mode, Mode::ConfirmDelete);
    assert_eq!(handle_confirm_keys(&mut a, Key::Char('n')), Effect::Nothing);
    assert_eq!(a.mode, Mode::Normal);
    handle_event(&mut a, Key::Char('d'), false);
    let e = handle_event(&mut a, Key::Char('Y'), false);
    assert_eq!(e, Effect::Delete { id: "discord".into(), name: "Discord".into() });
    let mut empty = App::new(Vec::new());
    handle_event(&mut empty, Key::Char('d'), false);
    assert_eq!(empty.mode, Mode::Normal);
}

#[test]
fn finishing_effects_updates_the_list() {
    let mut a = sample();
    handle_event(&mut a, Key::Char('a'), false);
    let mut apps = vec![
        app("discord", "Discord", "https://discord.com/app"),
        app("gmail", "Gmail", "https://mail.google.com"),
    ];
    a.finish_create("Gmail", apps);
    assert_eq!(a.mode, Mode::Normal);
    assert_eq!(a.status_message, Some(("Created 'Gmail'.".to_string(), false)));
    assert_eq!(a.filtered_indices, vec![0, 1]);
    apps = vec![app("gmail", "Gmail", "https://mail.google.com")];
    a.selected = 1;
    a.finish_delete("Discord", apps);
    assert_eq!(a.status_message, Some(("Deleted 'Discord'.".to_string(), false)));
    assert_eq!(a.selected, 0);
    a.finish_update("Mail", vec![app("gmail", "Mail", "https://mail.google.com")]);
    assert_eq!(a.status_message, Some(("Updated 'Mail'.".to_string(), false)));
    a.mode = Mode::Form(FormKind::Add);
    a.report_duplicate("gmail");
    assert_eq!(a.status_message, Some(("'gmail' already exists.".to_string(), true)));
    assert_eq!(a.mode, Mode::Form(FormKind::Add));
    a.finish_reload(Vec::new());
    assert_eq!(a.mode, Mode::Normal);
    assert!(a.filtered_indices.is_empty());
}

#[test]
fn refresh_keeps_selection_on_a_row() {
    let mut a = sample();
    a.selected = 2;
    a.refresh_apps(vec![app("a", "A", "u")]);
    assert_eq!(a.selected, 0);
    assert_eq!(a.filtered_indices, vec![0]);
}

#[test]
fn enter_edit_mode_without_selection_does_nothing() {
    let mut a = App::new(Vec::new());
    a.enter_edit_mode();
    assert_eq!(a.mode, Mode::Normal);
    a.enter_add_mode();
    assert_eq!(a.mode, Mode::Form(FormKind::Add));
}

#[test]
fn open_and_delete_selected() {
    let a = sample();
    assert_eq!(a.open_selected(), Effect::Open { id: "discord".into() });
    assert_eq!(a.delete_selected(), Effect::Delete { id: "discord".into(), name: "Discord".into() });
    let mut b = sample();
    b.move_down();
    b.move_down();
    b.move_down();
    assert_eq!(b.selected, 2);
    b.move_up();
    assert_eq!(b.selected, 1);
}
