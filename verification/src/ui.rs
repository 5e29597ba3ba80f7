//! The texts the terminal interface shows: the title count, the search bar, the
//! table rows, the status line and the form and confirmation popups.

use vstd::prelude::*;
use vstd::string::*;
use crate::config::Timestamp;
use crate::text::{
    chars_of, remove_all, remove_all_chars, string_from_chars, strip_trailing,
    strip_trailing_chars,
};
use crate::tui::{selected_of, App, AppView, FormKind, Mode};

verus! {

/// The text cursor drawn after the active input.
pub open spec fn cursor() -> char {
    '\u{258c}'
}

/// The decimal digits of `n`, as `Display` prints an unsigned integer.
pub open spec fn decimal(n: nat) -> Seq<char>
    decreases n,
{
    if n < 10 {
        seq![(n + 48) as char]
    } else {
        decimal(n / 10).push(((n % 10) + 48) as char)
    }
}

fn push_decimal(out: &mut Vec<char>, n: usize)
    ensures
        final(out)@ == old(out)@ + decimal(n as nat),
    decreases n,
{
    if n < 10 {
        out.push(((n as u8) + 48) as char);
    } else {
        push_decimal(out, n / 10);
        out.push((((n % 10) as u8) + 48) as char);
    }
}

/// `[1 app]` or `[<n> apps]`: how many PWAs are saved.
pub open spec fn count_label_text(count: nat) -> Seq<char> {
    if count == 1 {
        "1 app"@
    } else {
        decimal(count) + " apps"@
    }
}

pub fn count_label(count: usize) -> (res: String)
    ensures
        res@ == count_label_text(count as nat),
{
    if count == 1 {
        String::from_str("1 app")
    } else {
        let mut v: Vec<char> = Vec::new();
        push_decimal(&mut v, count);
        let mut s = string_from_chars(&v);
        s.append(" apps");
        s
    }
}

/// The search bar: ` / <query>`, with the cursor while searching.
pub open spec fn search_bar_text_of(query: Seq<char>, active: bool) -> Seq<char> {
    if active {
        " / "@ + query + seq![cursor()]
    } else {
        " / "@ + query
    }
}

pub fn search_bar_text(query: &str, active: bool) -> (res: String)
    ensures
        res@ == search_bar_text_of(query@, active),
{
    let mut s = String::from_str(" / ");
    s.append(query);
    if active {
        let mut v = chars_of(s.as_str());
        v.push('\u{258c}');
        s = string_from_chars(&v);
    }
    s
}

/// ` (<matched>/<total>)` beside a non-empty query, nothing beside an empty one.
pub open spec fn search_hint_text(query: Seq<char>, matched: nat, total: nat) -> Seq<char> {
    if query.len() == 0 {
        Seq::empty()
    } else {
        " ("@ + decimal(matched) + seq!['/'] + decimal(total) + seq![')']
    }
}

pub fn search_count_hint(query: &str, matched: usize, total: usize) -> (res: String)
    ensures
        res@ == search_hint_text(query@, matched as nat, total as nat),
{
    if query.is_empty() {
        return String::new();
    }
    let mut v = chars_of(" (");
    push_decimal(&mut v, matched);
    v.push('/');
    push_decimal(&mut v, total);
    v.push(')');
    string_from_chars(&v)
}

/// A URL as the table shows it: every `https://` and then every `http://` removed,
/// and trailing slashes dropped.
pub open spec fn short_url(url: Seq<char>) -> Seq<char> {
    strip_trailing(remove_all(remove_all(url, "https://"@), "http://"@), '/')
}

pub fn truncate_url(url: &str) -> (res: String)
    ensures
        res@ == short_url(url@),
{
    let u = chars_of(url);
    let https = chars_of("https://");
    let http = chars_of("http://");
    proof {
        reveal_strlit("https://");
        reveal_strlit("http://");
    }
    let a = remove_all_chars(&u, &https);
    let b = remove_all_chars(&a, &http);
    let c = strip_trailing_chars(&b, '/');
    string_from_chars(&c)
}

/// One row of the table.
pub struct TableRow {
    /// `>>` on the highlighted row, two spaces elsewhere.
    pub marker: String,
    pub name: String,
    pub url: String,
    pub created_at: Timestamp,
    pub selected: bool,
}

/// Every shown row is an app of the list.
pub open spec fn rows_in_range(s: AppView) -> bool {
    forall|i: int| 0 <= i < s.filtered.len() ==> #[trigger] s.filtered[i] < s.apps.len()
}

/// Whether every shown row is an app of the list (what `table_rows` needs).
pub fn rows_are_in_range(app: &App) -> (res: bool)
    ensures
        res == rows_in_range(app@),
{
    let mut i: usize = 0;
    while i < app.filtered_indices.len()
        invariant
            i <= app.filtered_indices.len(),
            forall|k: int| 0 <= k < i ==> #[trigger] app@.filtered[k] < app@.apps.len(),
        decreases app.filtered_indices.len() - i,
    {
        if app.filtered_indices[i] >= app.apps.len() {
            proof {
                assert(app@.filtered[i as int] >= app@.apps.len());
            }
            return false;
        }
        i = i + 1;
    }
    true
}

/// The rows of the table: one per shown app, in order.
pub fn table_rows(app: &App) -> (res: Vec<TableRow>)
    requires
        rows_in_range(app@),
    ensures
        res.len() == app@.filtered.len(),
        forall|k: int|
            0 <= k < res.len() ==> {
                let a = app@.apps[app@.filtered[k] as int];
                &&& (#[trigger] res@[k]).selected == (k == app.selected)
                &&& res@[k].marker@ == (if k == app.selected {
                    ">>"@
                } else {
                    "  "@
                })
                &&& res@[k].name@ == a.name@
                &&& res@[k].url@ == short_url(a.url@)
                &&& res@[k].created_at == a.created_at
            },
{
    let mut rows: Vec<TableRow> = Vec::new();
    let mut k: usize = 0;
    while k < app.filtered_indices.len()
        invariant
            rows_in_range(app@),
            k <= app.filtered_indices.len(),
            rows.len() == k,
            forall|j: int|
                0 <= j < k ==> {
                    let a = app@.apps[app@.filtered[j] as int];
                    &&& (#[trigger] rows@[j]).selected == (j == app.selected)
                    &&& rows@[j].marker@ == (if j == app.selected {
                        ">>"@
                    } else {
                        "  "@
                    })
                    &&& rows@[j].name@ == a.name@
                    &&& rows@[j].url@ == short_url(a.url@)
                    &&& rows@[j].created_at == a.created_at
                },
        decreases app.filtered_indices.len() - k,
    {
        let idx = app.filtered_indices[k];
        proof {
            assert(app@.filtered[k as int] == idx);
        }
        let a = &app.apps[idx];
        let selected = k == app.selected;
        let marker = if selected {
            String::from_str(">>")
        } else {
            String::from_str("  ")
        };
        rows.push(
            TableRow {
                marker,
                name: a.name.clone(),
                url: truncate_url(a.url.as_str()),
                created_at: a.created_at,
                selected,
            },
        );
        k = k + 1;
    }
    rows
}

/// The status line: the message after one space.
pub fn status_text(message: &str) -> (res: String)
    ensures
        res@ == " "@ + message@,
{
    let mut s = String::from_str(" ");
    s.append(message);
    s
}

/// The title of the form popup.
pub fn form_title(kind: FormKind) -> (res: &'static str)
    ensures
        res@ == (match kind {
            FormKind::Add => " Add PWA "@,
            FormKind::Edit(_) => " Edit PWA "@,
        }),
{
    match kind {
        FormKind::Add => " Add PWA ",
        FormKind::Edit(_) => " Edit PWA ",
    }
}

/// A form input as shown: its text, with the cursor when the field is active.
pub fn field_text(input: &str, active: bool) -> (res: String)
    ensures
        res@ == (if active {
            input@.push(cursor())
        } else {
            input@
        }),
{
    let mut v = chars_of(input);
    if active {
        v.push('\u{258c}');
    }
    string_from_chars(&v)
}

/// The name the delete confirmation asks about: the highlighted PWA's, or `?`.
pub fn confirm_target(app: &App) -> (res: String)
    ensures
        res@ == (match selected_of(app@) {
            Some(a) => a.name@,
            None => "?"@,
        }),
{
    match app.selected_app() {
        Some(a) => a.name.clone(),
        None => String::from_str("?"),
    }
}


/// The popup drawn over the list.
#[derive(Clone, Copy, PartialEq, Eq, Structural, Debug)]
pub enum Popup {
    NoPopup,
    Form(FormKind),
    ConfirmDelete,
}

/// What the screen shows besides the title, table and action bar.
#[derive(Clone, Copy, PartialEq, Eq, Structural, Debug)]
pub struct Screen {
    /// The search bar, between the title and the table.
    pub search_bar: bool,
    pub popup: Popup,
}

/// The screen for a state: the search bar while searching or while a query is kept,
/// the form popup in the form, the confirmation popup while confirming a deletion.
pub fn screen_of(app: &App) -> (res: Screen)
    ensures
        res.search_bar == (app@.mode == Mode::Search || app@.search_query.len() > 0),
        res.popup == (match app@.mode {
            Mode::Form(kind) => Popup::Form(kind),
            Mode::ConfirmDelete => Popup::ConfirmDelete,
            _ => Popup::NoPopup,
        }),
{
    let searching = match app.mode {
        Mode::Search => true,
        _ => false,
    };
    let popup = match app.mode {
        Mode::Form(kind) => Popup::Form(kind),
        Mode::ConfirmDelete => Popup::ConfirmDelete,
        _ => Popup::NoPopup,
    };
    Screen { search_bar: searching || !app.search_query.as_str().is_empty(), popup }
}

/// What the table area shows.
#[derive(Clone, Copy, PartialEq, Eq, Structural, Debug)]
pub enum TableContent {
    Rows,
    /// "No PWAs yet. Press A to add one."
    NoApps,
    /// "No matches found."
    NoMatches,
}

/// The rows when any are shown; otherwise the hint to add a PWA when none is saved,
/// and the no-match message when a search hides them all.
pub fn table_content(app: &App) -> (res: TableContent)
    ensures
        res == (if app@.filtered.len() > 0 {
            TableContent::Rows
        } else if app@.apps.len() == 0 {
            TableContent::NoApps
        } else {
            TableContent::NoMatches
        }),
{
    if app.filtered_indices.len() > 0 {
        TableContent::Rows
    } else if app.apps.len() == 0 {
        TableContent::NoApps
    } else {
        TableContent::NoMatches
    }
}

}
