//! The state of the terminal interface and how each key press changes it.
//!
//! The interface is a state machine: `handle_event` takes the state and a key and
//! returns the effect the caller must carry out (open, delete, create, update or
//! reload PWAs). When the effect is done, the caller reports back through one of the
//! `finish_*` methods.

use vstd::prelude::*;
use vstd::string::*;
use crate::config::AppConfig;
use crate::text::{
    chars_of, contains_chars, contains_seq, has_prefix, lowercase, occurs_at, starts_with_chars,
    string_from_chars, to_lowercase, trim, trim_str,
};
use crate::weburl::{parse_url, url_serialization};

verus! {

#[derive(Clone, Copy, PartialEq, Eq, Structural, Debug)]
pub enum FormKind {
    Add,
    /// Editing the PWA at this index of the list.
    Edit(usize),
}

#[derive(Clone, Copy, PartialEq, Eq, Structural, Debug)]
pub enum Mode {
    Normal,
    Search,
    Form(FormKind),
    ConfirmDelete,
}

#[derive(Clone, Copy, PartialEq, Eq, Structural, Debug)]
pub enum FormField {
    Name,
    Url,
}

/// A key press, as far as the interface tells keys apart.
#[derive(Clone, Copy, PartialEq, Eq, Structural, Debug)]
pub enum Key {
    Char(char),
    Enter,
    Esc,
    Tab,
    BackTab,
    Backspace,
    Up,
    Down,
    Other,
}

/// What the caller must do after a key press.
#[derive(Debug, PartialEq, Eq)]
pub enum Effect {
    Nothing,
    /// Launch the PWA `id` in a window of its own.
    Open { id: String },
    /// Remove the PWA `id` (named `name`) from disk and menus.
    Delete { id: String, name: String },
    /// Create a PWA called `name` for `url`.
    Create { name: String, url: String },
    /// Give the PWA `id` the name `name` and the URL `url`.
    Update { id: String, name: String, url: String },
    /// Re-read the saved PWAs.
    Reload,
}

/// The view of an `Effect`.
pub enum EffectView {
    Nothing,
    Open { id: Seq<char> },
    Delete { id: Seq<char>, name: Seq<char> },
    Create { name: Seq<char>, url: Seq<char> },
    Update { id: Seq<char>, name: Seq<char>, url: Seq<char> },
    Reload,
}

impl View for Effect {
    type V = EffectView;

    open spec fn view(&self) -> EffectView {
        match self {
            Effect::Nothing => EffectView::Nothing,
            Effect::Open { id } => EffectView::Open { id: id@ },
            Effect::Delete { id, name } => EffectView::Delete { id: id@, name: name@ },
            Effect::Create { name, url } => EffectView::Create { name: name@, url: url@ },
            Effect::Update { id, name, url } => EffectView::Update {
                id: id@,
                name: name@,
                url: url@,
            },
            Effect::Reload => EffectView::Reload,
        }
    }
}

pub struct App {
    pub mode: Mode,
    pub apps: Vec<AppConfig>,
    /// Position in `filtered_indices` of the highlighted row.
    pub selected: usize,
    pub form_field: FormField,
    pub name_input: String,
    pub url_input: String,
    pub search_query: String,
    /// Indices into `apps` of the rows shown, in order.
    pub filtered_indices: Vec<usize>,
    /// A message for the status bar, and whether it reports an error.
    pub status_message: Option<(String, bool)>,
    pub should_quit: bool,
}

/// The view of an `App`.
pub struct AppView {
    pub mode: Mode,
    pub apps: Seq<AppConfig>,
    pub selected: usize,
    pub form_field: FormField,
    pub name_input: Seq<char>,
    pub url_input: Seq<char>,
    pub search_query: Seq<char>,
    pub filtered: Seq<usize>,
    pub status: Option<(Seq<char>, bool)>,
    pub should_quit: bool,
}

pub open spec fn status_view(s: Option<(String, bool)>) -> Option<(Seq<char>, bool)> {
    match s {
        Some((t, e)) => Some((t@, e)),
        None => None,
    }
}

impl View for App {
    type V = AppView;

    open spec fn view(&self) -> AppView {
        AppView {
            mode: self.mode,
            apps: self.apps@,
            selected: self.selected,
            form_field: self.form_field,
            name_input: self.name_input@,
            url_input: self.url_input@,
            search_query: self.search_query@,
            filtered: self.filtered_indices@,
            status: status_view(self.status_message),
            should_quit: self.should_quit,
        }
    }
}

/// The app `a` matches the lowercased query `lq`: its lowercased name or URL contains it.
pub open spec fn app_matches(a: AppConfig, lq: Seq<char>) -> bool {
    contains_seq(lowercase(a.name@), lq) || contains_seq(lowercase(a.url@), lq)
}

/// The app `a` is listed for the query `q`: the query is empty, or the app matches
/// the lowercased query.
pub open spec fn app_shown(a: AppConfig, q: Seq<char>) -> bool {
    q.len() == 0 || app_matches(a, lowercase(q))
}

/// The indices below `n` of the apps listed for the query `q`, in increasing order.
pub open spec fn matching_upto(apps: Seq<AppConfig>, q: Seq<char>, n: int) -> Seq<usize>
    decreases n,
{
    if n <= 0 {
        Seq::empty()
    } else {
        let r = matching_upto(apps, q, n - 1);
        if app_shown(apps[n - 1], q) {
            r.push((n - 1) as usize)
        } else {
            r
        }
    }
}

/// The rows shown for `query`: every app when the query is empty, otherwise the
/// indices of the apps whose lowercased name or URL contains the lowercased query, in
/// list order.
pub open spec fn filter_for(apps: Seq<AppConfig>, query: Seq<char>) -> Seq<usize> {
    matching_upto(apps, query, apps.len() as int)
}

/// `sel` moved back into a list of `len` rows: the last row when it is past the end
/// (row 0 when the list is empty).
pub open spec fn clamp_selection(sel: usize, len: nat) -> usize {
    if sel >= len {
        if len == 0 {
            0
        } else {
            (len - 1) as usize
        }
    } else {
        sel
    }
}

/// The state is consistent: every shown row is an app of the list, and the highlight
/// is on a shown row (or at 0 when no row is shown).
pub open spec fn wf(s: AppView) -> bool {
    &&& forall|i: int| 0 <= i < s.filtered.len() ==> #[trigger] s.filtered[i] < s.apps.len()
    &&& s.filtered.len() == 0 ==> s.selected == 0
    &&& s.filtered.len() > 0 ==> s.selected < s.filtered.len()
}

/// The app under the highlight, if any.
pub open spec fn selected_of(s: AppView) -> Option<AppConfig> {
    if s.selected < s.filtered.len() && s.filtered[s.selected as int] < s.apps.len() {
        Some(s.apps[s.filtered[s.selected as int] as int])
    } else {
        None
    }
}

pub open spec fn after_filter(s: AppView) -> AppView {
    let f = filter_for(s.apps, s.search_query);
    AppView { filtered: f, selected: clamp_selection(s.selected, f.len()), ..s }
}

pub open spec fn after_refresh(s: AppView, apps: Seq<AppConfig>) -> AppView {
    after_filter(AppView { apps: apps, ..s })
}

pub open spec fn after_move_up(s: AppView) -> AppView {
    if s.selected > 0 {
        AppView { selected: (s.selected - 1) as usize, ..s }
    } else {
        s
    }
}

pub open spec fn after_move_down(s: AppView) -> AppView {
    if s.filtered.len() > 0 && s.selected < s.filtered.len() - 1 {
        AppView { selected: (s.selected + 1) as usize, ..s }
    } else {
        s
    }
}

pub open spec fn after_enter_add(s: AppView) -> AppView {
    AppView {
        name_input: Seq::empty(),
        url_input: Seq::empty(),
        form_field: FormField::Name,
        mode: Mode::Form(FormKind::Add),
        status: None,
        ..s
    }
}

pub open spec fn after_enter_edit(s: AppView) -> AppView {
    if s.selected < s.filtered.len() && s.filtered[s.selected as int] < s.apps.len() {
        let idx = s.filtered[s.selected as int];
        AppView {
            name_input: s.apps[idx as int].name@,
            url_input: s.apps[idx as int].url@,
            form_field: FormField::Name,
            mode: Mode::Form(FormKind::Edit(idx)),
            status: None,
            ..s
        }
    } else {
        s
    }
}

/// The URL a form entry stands for: trimmed, with `https://` put in front unless it
/// already starts with `http://` or `https://`.
pub open spec fn normalized_url(input: Seq<char>) -> Seq<char> {
    let u = trim(input);
    if has_prefix(u, "http://"@) || has_prefix(u, "https://"@) {
        u
    } else {
        "https://"@ + u
    }
}

/// Saving the form: the state afterwards and the effect asked for.
pub open spec fn after_save(s: AppView) -> (AppView, EffectView) {
    let name = trim(s.name_input);
    let url = normalized_url(s.url_input);
    if name.len() == 0 || trim(s.url_input).len() == 0 {
        (AppView { status: Some(("Name and URL are required."@, true)), ..s }, EffectView::Nothing)
    } else if url_serialization(url) is None {
        (AppView { status: Some(("Invalid URL."@, true)), ..s }, EffectView::Nothing)
    } else {
        match s.mode {
            Mode::Form(FormKind::Add) => (s, EffectView::Create { name: name, url: url }),
            Mode::Form(FormKind::Edit(idx)) => if idx < s.apps.len() {
                (s, EffectView::Update { id: s.apps[idx as int].id@, name: name, url: url })
            } else {
                (s, EffectView::Reload)
            },
            _ => (s, EffectView::Reload),
        }
    }
}

pub open spec fn open_effect(s: AppView) -> EffectView {
    match selected_of(s) {
        Some(a) => EffectView::Open { id: a.id@ },
        None => EffectView::Nothing,
    }
}

pub open spec fn delete_effect(s: AppView) -> EffectView {
    match selected_of(s) {
        Some(a) => EffectView::Delete { id: a.id@, name: a.name@ },
        None => EffectView::Nothing,
    }
}

/// `s` without its last character (unchanged when empty), as `String::pop` leaves it.
pub open spec fn pop_char(s: Seq<char>) -> Seq<char> {
    if s.len() > 0 {
        s.drop_last()
    } else {
        s
    }
}

pub open spec fn normal_step(s: AppView, key: Key) -> (AppView, EffectView) {
    match key {
        Key::Char('q') => (AppView { should_quit: true, ..s }, EffectView::Nothing),
        Key::Char('a') => (after_enter_add(s), EffectView::Nothing),
        Key::Char('e') => (after_enter_edit(s), EffectView::Nothing),
        Key::Char('o') | Key::Enter => (s, open_effect(s)),
        Key::Char('d') => if selected_of(s) is Some {
            (AppView { mode: Mode::ConfirmDelete, status: None, ..s }, EffectView::Nothing)
        } else {
            (s, EffectView::Nothing)
        },
        Key::Char('/') => (
            AppView { mode: Mode::Search, search_query: Seq::empty(), status: None, ..s },
            EffectView::Nothing,
        ),
        Key::Up | Key::Char('k') => (after_move_up(s), EffectView::Nothing),
        Key::Down | Key::Char('j') => (after_move_down(s), EffectView::Nothing),
        _ => (s, EffectView::Nothing),
    }
}

pub open spec fn search_step(s: AppView, key: Key) -> AppView {
    match key {
        Key::Esc => AppView {
            mode: Mode::Normal,
            ..after_filter(AppView { search_query: Seq::empty(), ..s })
        },
        Key::Enter => AppView { mode: Mode::Normal, ..s },
        Key::Backspace => after_filter(AppView { search_query: pop_char(s.search_query), ..s }),
        Key::Char(c) => after_filter(AppView { search_query: s.search_query.push(c), ..s }),
        Key::Up => after_move_up(s),
        Key::Down => after_move_down(s),
        _ => s,
    }
}

pub open spec fn toggle_field(f: FormField) -> FormField {
    match f {
        FormField::Name => FormField::Url,
        FormField::Url => FormField::Name,
    }
}

/// `s` with `c` typed into the active form field (`None`: its last character erased).
pub open spec fn edit_active_input(s: AppView, c: Option<char>) -> AppView {
    let edit = |t: Seq<char>| match c {
        Some(ch) => t.push(ch),
        None => pop_char(t),
    };
    match s.form_field {
        FormField::Name => AppView { name_input: edit(s.name_input), ..s },
        FormField::Url => AppView { url_input: edit(s.url_input), ..s },
    }
}

pub open spec fn form_step(s: AppView, key: Key, ctrl: bool) -> (AppView, EffectView) {
    if ctrl && key == Key::Char('s') {
        after_save(s)
    } else {
        match key {
            Key::Esc => (AppView { mode: Mode::Normal, status: None, ..s }, EffectView::Nothing),
            Key::Tab | Key::BackTab => (
                AppView { form_field: toggle_field(s.form_field), ..s },
                EffectView::Nothing,
            ),
            Key::Enter => match s.form_field {
                FormField::Name => (AppView { form_field: FormField::Url, ..s }, EffectView::Nothing),
                FormField::Url => after_save(s),
            },
            Key::Backspace => (edit_active_input(s, None), EffectView::Nothing),
            Key::Char(c) => (edit_active_input(s, Some(c)), EffectView::Nothing),
            _ => (s, EffectView::Nothing),
        }
    }
}

pub open spec fn confirm_step(s: AppView, key: Key) -> (AppView, EffectView) {
    match key {
        Key::Char('y') | Key::Char('Y') => (s, delete_effect(s)),
        _ => (AppView { mode: Mode::Normal, status: None, ..s }, EffectView::Nothing),
    }
}

/// One key press in any mode.
pub open spec fn step(s: AppView, key: Key, ctrl: bool) -> (AppView, EffectView) {
    match s.mode {
        Mode::Normal => normal_step(s, key),
        Mode::Search => (search_step(s, key), EffectView::Nothing),
        Mode::Form(_) => form_step(s, key, ctrl),
        Mode::ConfirmDelete => confirm_step(s, key),
    }
}

proof fn lemma_contains_empty(hay: Seq<char>)
    ensures
        contains_seq(hay, Seq::empty()),
{
    assert(hay.subrange(0, 0) =~= Seq::<char>::empty());
    assert(occurs_at(hay, Seq::empty(), 0));
}

proof fn lemma_matching_bounded(apps: Seq<AppConfig>, q: Seq<char>, n: int)
    requires
        0 <= n <= apps.len(),
    ensures
        forall|i: int|
            0 <= i < matching_upto(apps, q, n).len() ==> #[trigger] matching_upto(apps, q, n)[i]
                < n,
        matching_upto(apps, q, n).len() <= n,
    decreases n,
{
    if n > 0 {
        lemma_matching_bounded(apps, q, n - 1);
    }
}

fn chars_to_string_pop(s: &String) -> (res: String)
    ensures
        res@ == pop_char(s@),
{
    let mut cs = chars_of(s.as_str());
    if cs.len() > 0 {
        cs.pop();
    }
    string_from_chars(&cs)
}

fn string_push_char(s: &String, c: char) -> (res: String)
    ensures
        res@ == s@.push(c),
{
    let mut cs = chars_of(s.as_str());
    cs.push(c);
    string_from_chars(&cs)
}

fn all_indices(n: usize) -> (res: Vec<usize>)
    ensures
        res.len() == n,
        forall|i: int| 0 <= i < n ==> #[trigger] res@[i] == i,
{
    let mut v: Vec<usize> = Vec::new();
    let mut i: usize = 0;
    while i < n
        invariant
            i <= n,
            v.len() == i,
            forall|k: int| 0 <= k < i ==> #[trigger] v@[k] == k,
        decreases n - i,
    {
        v.push(i);
        i = i + 1;
    }
    v
}

impl App {
    /// A fresh interface over `apps`: every app shown, the first row highlighted, no
    /// query, no message.
    pub fn new(apps: Vec<AppConfig>) -> (res: App)
        ensures
            res@.apps == apps@,
            res@.mode == Mode::Normal,
            res@.selected == 0,
            res@.form_field == FormField::Name,
            res@.name_input.len() == 0,
            res@.url_input.len() == 0,
            res@.search_query.len() == 0,
            res@.filtered.len() == apps.len(),
            forall|i: int| 0 <= i < apps.len() ==> #[trigger] res@.filtered[i] == i,
            res@.status is None,
            !res@.should_quit,
            wf(res@),
    {
        let n = apps.len();
        let filtered_indices = all_indices(n);
        App {
            mode: Mode::Normal,
            apps,
            selected: 0,
            form_field: FormField::Name,
            name_input: String::new(),
            url_input: String::new(),
            search_query: String::new(),
            filtered_indices,
            status_message: None,
            should_quit: false,
        }
    }

    /// Recomputes the shown rows for the current query and keeps the highlight on a row.
    pub fn apply_filter(&mut self)
        ensures
            final(self)@ == after_filter(old(self)@),
            wf(final(self)@),
            forall|k: int|
                0 <= k < old(self)@.apps.len() ==> (#[trigger] final(self)@.filtered.contains(
                    k as usize,
                ) <==> (old(self)@.search_query.len() == 0 || contains_seq(
                    lowercase(old(self)@.apps[k].name@),
                    lowercase(old(self)@.search_query),
                ) || contains_seq(
                    lowercase(old(self)@.apps[k].url@),
                    lowercase(old(self)@.search_query),
                ))),
    {
        let ghost s0 = self@;
        proof {
            assert(s0.apps.len() == self.apps.len());
            law_search_matches_name_or_url(s0);
        }
        let lq_text = to_lowercase(self.search_query.as_str());
        let lq = chars_of(lq_text.as_str());
        let n = self.apps.len();
        let mut out: Vec<usize> = Vec::new();
        let mut i: usize = 0;
        while i < n
            invariant
                n == self.apps.len(),
                i <= n,
                lq@ == lowercase(self.search_query@),
                self.search_query@.len() == 0 ==> lq@.len() == 0,
                out@ == matching_upto(self.apps@, self.search_query@, i as int),
            decreases n - i,
        {
            let keep = if lq.len() == 0 {
                proof {
                    lemma_contains_empty(lowercase(self.apps@[i as int].name@));
                    assert(lq@ =~= Seq::<char>::empty());
                    assert(app_shown(self.apps@[i as int], self.search_query@));
                }
                true
            } else {
                let a = &self.apps[i];
                let ln_text = to_lowercase(a.name.as_str());
                let ln = chars_of(ln_text.as_str());
                if contains_chars(&ln, &lq) {
                    true
                } else {
                    let lu_text = to_lowercase(a.url.as_str());
                    let lu = chars_of(lu_text.as_str());
                    contains_chars(&lu, &lq)
                }
            };
            if keep {
                out.push(i);
            }
            i = i + 1;
        }
        proof {
            lemma_matching_bounded(self.apps@, self.search_query@, n as int);
        }
        self.filtered_indices = out;
        if self.selected >= self.filtered_indices.len() {
            self.selected = if self.filtered_indices.len() == 0 {
                0
            } else {
                self.filtered_indices.len() - 1
            };
        }
    }

    /// Replaces the list by `apps` (as just re-read from disk) and recomputes the rows.
    pub fn refresh_apps(&mut self, apps: Vec<AppConfig>)
        ensures
            final(self)@ == after_refresh(old(self)@, apps@),
            wf(final(self)@),
    {
        self.apps = apps;
        self.apply_filter();
        if self.selected >= self.filtered_indices.len() && self.filtered_indices.len() > 0 {
            self.selected = self.filtered_indices.len() - 1;
        }
    }

    /// The app under the highlight, if any.
    pub fn selected_app(&self) -> (res: Option<&AppConfig>)
        ensures
            match res {
                Some(a) => selected_of(self@) == Some(*a),
                None => selected_of(self@) is None,
            },
            wf(self@) && self@.filtered.len() > 0 ==> (res matches Some(a) && *a
                == self@.apps[self@.filtered[self@.selected as int] as int]),
            wf(self@) && self@.filtered.len() == 0 ==> res is None,
    {
        if self.selected < self.filtered_indices.len() {
            let i = self.filtered_indices[self.selected];
            if i < self.apps.len() {
                return Some(&self.apps[i]);
            }
        }
        None
    }

    /// Opens an empty form for a new PWA.
    pub fn enter_add_mode(&mut self)
        ensures
            final(self)@ == after_enter_add(old(self)@),
    {
        self.name_input = String::new();
        self.url_input = String::new();
        self.form_field = FormField::Name;
        self.mode = Mode::Form(FormKind::Add);
        self.status_message = None;
    }

    /// Opens the form on the highlighted PWA, filled with its name and URL.
    pub fn enter_edit_mode(&mut self)
        ensures
            final(self)@ == after_enter_edit(old(self)@),
            wf(old(self)@) && old(self)@.filtered.len() > 0 ==> ({
                let i = old(self)@.filtered[old(self)@.selected as int];
                &&& final(self)@.mode == Mode::Form(FormKind::Edit(i))
                &&& final(self)@.name_input == old(self)@.apps[i as int].name@
                &&& final(self)@.url_input == old(self)@.apps[i as int].url@
            }),
    {
        if self.selected < self.filtered_indices.len() {
            let idx = self.filtered_indices[self.selected];
            if idx < self.apps.len() {
                let name = self.apps[idx].name.clone();
                let url = self.apps[idx].url.clone();
                self.name_input = name;
                self.url_input = url;
                self.form_field = FormField::Name;
                self.mode = Mode::Form(FormKind::Edit(idx));
                self.status_message = None;
            }
        }
    }

    pub fn move_up(&mut self)
        ensures
            final(self)@ == after_move_up(old(self)@),
    {
        if self.selected > 0 {
            self.selected = self.selected - 1;
        }
    }

    pub fn move_down(&mut self)
        ensures
            final(self)@ == after_move_down(old(self)@),
    {
        if self.filtered_indices.len() > 0 && self.selected < self.filtered_indices.len() - 1 {
            self.selected = self.selected + 1;
        }
    }

    /// Checks the form and says what saving it asks for; on a bad entry it sets an
    /// error message and asks for nothing.
    pub fn save_form(&mut self) -> (res: Effect)
        ensures
            (final(self)@, res@) == after_save(old(self)@),
    {
        let name = trim_str(self.name_input.as_str());
        let url_trimmed = trim_str(self.url_input.as_str());
        if name.as_str().is_empty() || url_trimmed.as_str().is_empty() {
            self.status_message = Some((String::from_str("Name and URL are required."), true));
            return Effect::Nothing;
        }
        let u = chars_of(url_trimmed.as_str());
        let http = chars_of("http://");
        let https = chars_of("https://");
        let url = if starts_with_chars(&u, &http) || starts_with_chars(&u, &https) {
            url_trimmed
        } else {
            let mut s = String::from_str("https://");
            s.append(url_trimmed.as_str());
            s
        };
        proof {
            assert(url@ == normalized_url(self.url_input@));
        }
        if parse_url(url.as_str()).is_none() {
            self.status_message = Some((String::from_str("Invalid URL."), true));
            return Effect::Nothing;
        }
        match self.mode {
            Mode::Form(FormKind::Add) => Effect::Create { name, url },
            Mode::Form(FormKind::Edit(idx)) => {
                if idx < self.apps.len() {
                    Effect::Update { id: self.apps[idx].id.clone(), name, url }
                } else {
                    Effect::Reload
                }
            },
            _ => Effect::Reload,
        }
    }
}


impl App {
    /// Asks to delete the highlighted PWA, if there is one.
    pub fn delete_selected(&self) -> (res: Effect)
        ensures
            res@ == delete_effect(self@),
            wf(self@) && self@.filtered.len() > 0 ==> ({
                let a = self@.apps[self@.filtered[self@.selected as int] as int];
                res@ == EffectView::Delete { id: a.id@, name: a.name@ }
            }),
    {
        match self.selected_app() {
            Some(a) => Effect::Delete { id: a.id.clone(), name: a.name.clone() },
            None => Effect::Nothing,
        }
    }

    /// Asks to open the highlighted PWA, if there is one.
    pub fn open_selected(&self) -> (res: Effect)
        ensures
            res@ == open_effect(self@),
            wf(self@) && self@.filtered.len() > 0 ==> res@ == (EffectView::Open {
                id: self@.apps[self@.filtered[self@.selected as int] as int].id@,
            }),
    {
        match self.selected_app() {
            Some(a) => Effect::Open { id: a.id.clone() },
            None => Effect::Nothing,
        }
    }

    /// After a `Create` effect has been carried out: back to the list, re-read as `apps`,
    /// with the message "Created '<name>'.".
    pub fn finish_create(&mut self, name: &str, apps: Vec<AppConfig>)
        ensures
            final(self)@ == after_refresh(
                (AppView {
                    mode: Mode::Normal,
                    status: Some(("Created '"@ + name@ + "'."@, false)),
                    ..old(self)@
                }),
                apps@,
            ),
            wf(final(self)@),
    {
        let mut msg = String::from_str("Created '");
        msg.append(name);
        msg.append("'.");
        self.status_message = Some((msg, false));
        self.mode = Mode::Normal;
        self.refresh_apps(apps);
    }

    /// After an `Update` effect has been carried out: back to the list, re-read as `apps`,
    /// with the message "Updated '<name>'.".
    pub fn finish_update(&mut self, name: &str, apps: Vec<AppConfig>)
        ensures
            final(self)@ == after_refresh(
                (AppView {
                    mode: Mode::Normal,
                    status: Some(("Updated '"@ + name@ + "'."@, false)),
                    ..old(self)@
                }),
                apps@,
            ),
            wf(final(self)@),
    {
        let mut msg = String::from_str("Updated '");
        msg.append(name);
        msg.append("'.");
        self.status_message = Some((msg, false));
        self.mode = Mode::Normal;
        self.refresh_apps(apps);
    }

    /// After a `Reload` effect: back to the list, re-read as `apps`.
    pub fn finish_reload(&mut self, apps: Vec<AppConfig>)
        ensures
            final(self)@ == after_refresh((AppView { mode: Mode::Normal, ..old(self)@ }), apps@),
            wf(final(self)@),
    {
        self.mode = Mode::Normal;
        self.refresh_apps(apps);
    }

    /// After a `Delete` effect has been carried out: the list re-read as `apps`, the
    /// message "Deleted '<name>'." and back to the list.
    pub fn finish_delete(&mut self, name: &str, apps: Vec<AppConfig>)
        ensures
            final(self)@ == (AppView {
                mode: Mode::Normal,
                status: Some(("Deleted '"@ + name@ + "'."@, false)),
                ..after_refresh(old(self)@, apps@)
            }),
            wf(final(self)@),
    {
        self.refresh_apps(apps);
        let mut msg = String::from_str("Deleted '");
        msg.append(name);
        msg.append("'.");
        self.status_message = Some((msg, false));
        self.mode = Mode::Normal;
    }

    /// A `Create` was refused because a PWA with the id `id` already exists: the form
    /// stays open with the message "'<id>' already exists.".
    pub fn report_duplicate(&mut self, id: &str)
        ensures
            final(self)@ == (AppView {
                status: Some(("'"@ + id@ + "' already exists."@, true)),
                ..old(self)@
            }),
    {
        let mut msg = String::from_str("'");
        msg.append(id);
        msg.append("' already exists.");
        self.status_message = Some((msg, true));
    }
}

/// A key press in the list.
pub fn handle_normal_keys(app: &mut App, key: Key) -> (res: Effect)
    ensures
        (final(app)@, res@) == normal_step(old(app)@, key),
{
    match key {
        Key::Char('q') => {
            app.should_quit = true;
            Effect::Nothing
        },
        Key::Char('a') => {
            app.enter_add_mode();
            Effect::Nothing
        },
        Key::Char('e') => {
            app.enter_edit_mode();
            Effect::Nothing
        },
        Key::Char('o') | Key::Enter => app.open_selected(),
        Key::Char('d') => {
            if app.selected_app().is_some() {
                app.mode = Mode::ConfirmDelete;
                app.status_message = None;
            }
            Effect::Nothing
        },
        Key::Char('/') => {
            app.mode = Mode::Search;
            app.search_query = String::new();
            app.status_message = None;
            Effect::Nothing
        },
        Key::Up | Key::Char('k') => {
            app.move_up();
            Effect::Nothing
        },
        Key::Down | Key::Char('j') => {
            app.move_down();
            Effect::Nothing
        },
        _ => Effect::Nothing,
    }
}

/// A key press while typing a search.
pub fn handle_search_keys(app: &mut App, key: Key)
    ensures
        final(app)@ == search_step(old(app)@, key),
{
    match key {
        Key::Esc => {
            app.search_query = String::new();
            app.apply_filter();
            app.mode = Mode::Normal;
        },
        Key::Enter => {
            app.mode = Mode::Normal;
        },
        Key::Backspace => {
            app.search_query = chars_to_string_pop(&app.search_query);
            app.apply_filter();
        },
        Key::Char(c) => {
            app.search_query = string_push_char(&app.search_query, c);
            app.apply_filter();
        },
        Key::Up => {
            app.move_up();
        },
        Key::Down => {
            app.move_down();
        },
        _ => {},
    }
}

/// A key press in the add/edit form; `ctrl` tells whether Control was held.
pub fn handle_form_keys(app: &mut App, key: Key, ctrl: bool) -> (res: Effect)
    ensures
        (final(app)@, res@) == form_step(old(app)@, key, ctrl),
{
    if ctrl && key == Key::Char('s') {
        return app.save_form();
    }
    match key {
        Key::Esc => {
            app.mode = Mode::Normal;
            app.status_message = None;
            Effect::Nothing
        },
        Key::Tab | Key::BackTab => {
            app.form_field = match app.form_field {
                FormField::Name => FormField::Url,
                FormField::Url => FormField::Name,
            };
            Effect::Nothing
        },
        Key::Enter => {
            match app.form_field {
                FormField::Name => {
                    app.form_field = FormField::Url;
                    Effect::Nothing
                },
                FormField::Url => app.save_form(),
            }
        },
        Key::Backspace => {
            match app.form_field {
                FormField::Name => {
                    app.name_input = chars_to_string_pop(&app.name_input);
                },
                FormField::Url => {
                    app.url_input = chars_to_string_pop(&app.url_input);
                },
            }
            Effect::Nothing
        },
        Key::Char(c) => {
            match app.form_field {
                FormField::Name => {
                    app.name_input = string_push_char(&app.name_input, c);
                },
                FormField::Url => {
                    app.url_input = string_push_char(&app.url_input, c);
                },
            }
            Effect::Nothing
        },
        _ => Effect::Nothing,
    }
}

/// A key press while asked to confirm a deletion: `y` or `Y` confirms, any other key
/// cancels.
pub fn handle_confirm_keys(app: &mut App, key: Key) -> (res: Effect)
    ensures
        (final(app)@, res@) == confirm_step(old(app)@, key),
{
    match key {
        Key::Char('y') | Key::Char('Y') => app.delete_selected(),
        _ => {
            app.mode = Mode::Normal;
            app.status_message = None;
            Effect::Nothing
        },
    }
}

/// One key press, dispatched on the current mode.
pub fn handle_event(app: &mut App, key: Key, ctrl: bool) -> (res: Effect)
    ensures
        (final(app)@, res@) == step(old(app)@, key, ctrl),
{
    match app.mode {
        Mode::Normal => handle_normal_keys(app, key),
        Mode::Search => {
            handle_search_keys(app, key);
            Effect::Nothing
        },
        Mode::Form(_) => handle_form_keys(app, key, ctrl),
        Mode::ConfirmDelete => handle_confirm_keys(app, key),
    }
}


proof fn lemma_after_filter_wf(s: AppView)
    ensures
        wf(after_filter(s)),
{
    lemma_matching_bounded(s.apps, s.search_query, s.apps.len() as int);
}

/// Every key press keeps the state consistent: shown rows are apps of the list and the
/// highlight is on a shown row.
pub proof fn law_step_keeps_wf(s: AppView, key: Key, ctrl: bool)
    requires
        wf(s),
    ensures
        wf(step(s, key, ctrl).0),
{
    lemma_after_filter_wf(AppView { search_query: Seq::empty(), ..s });
    lemma_after_filter_wf(AppView { search_query: pop_char(s.search_query), ..s });
    match key {
        Key::Char(c) => {
            lemma_after_filter_wf(AppView { search_query: s.search_query.push(c), ..s });
        },
        _ => {},
    }
}

/// Re-reading the list always leaves the state consistent, whatever it was before.
pub proof fn law_refresh_makes_wf(s: AppView, apps: Seq<AppConfig>)
    ensures
        wf(after_refresh(s, apps)),
{
    lemma_after_filter_wf(AppView { apps: apps, ..s });
}

proof fn lemma_matching_exact(apps: Seq<AppConfig>, q: Seq<char>, n: int)
    requires
        0 <= n <= apps.len(),
        apps.len() <= usize::MAX,
    ensures
        forall|i: int, j: int|
            0 <= i < j < matching_upto(apps, q, n).len() ==> matching_upto(apps, q, n)[i]
                < matching_upto(apps, q, n)[j],
        forall|i: int|
            0 <= i < matching_upto(apps, q, n).len() ==> app_shown(
                apps[#[trigger] matching_upto(apps, q, n)[i] as int],
                q,
            ),
        forall|k: int|
            0 <= k < n && app_shown(apps[k], q) ==> #[trigger] matching_upto(
                apps,
                q,
                n,
            ).contains(k as usize),
    decreases n,
{
    if n > 0 {
        lemma_matching_exact(apps, q, n - 1);
        lemma_matching_bounded(apps, q, n - 1);
        let r = matching_upto(apps, q, n - 1);
        let r2 = matching_upto(apps, q, n);
        if app_shown(apps[n - 1], q) {
            assert(r2 == r.push((n - 1) as usize));
            assert forall|i: int, j: int| 0 <= i < j < r2.len() implies r2[i] < r2[j] by {
                assert(r2[i] == r[i]);
                if j < r.len() {
                    assert(r2[j] == r[j]);
                } else {
                    assert(r2[j] == (n - 1) as usize);
                }
            }
            assert forall|i: int| 0 <= i < r2.len() implies app_shown(
                apps[#[trigger] r2[i] as int],
                q,
            ) by {
                if i < r.len() {
                    assert(r2[i] == r[i]);
                }
            }
        } else {
            assert(r2 == r);
        }
        assert forall|k: int| 0 <= k < n && app_shown(apps[k], q) implies #[trigger] r2.contains(
            k as usize,
        ) by {
            if k < n - 1 {
                assert(r.contains(k as usize));
                let w = choose|w: int| 0 <= w < r.len() && r[w] == k as usize;
                assert(r2[w] == k as usize);
            } else {
                assert(r2[r2.len() - 1] == k as usize);
            }
        }
    }
}

/// Search lists exactly the apps shown for the query (every app for an empty query;
/// otherwise those whose lowercased name or URL contains the lowercased query), each
/// once, in list order.
pub proof fn law_filter_exact(apps: Seq<AppConfig>, query: Seq<char>)
    requires
        apps.len() <= usize::MAX,
    ensures
        forall|i: int, j: int|
            0 <= i < j < filter_for(apps, query).len() ==> filter_for(apps, query)[i] < filter_for(
                apps,
                query,
            )[j],
        forall|i: int|
            0 <= i < filter_for(apps, query).len() ==> #[trigger] filter_for(apps, query)[i]
                < apps.len() && app_shown(apps[filter_for(apps, query)[i] as int], query),
        forall|k: int|
            0 <= k < apps.len() && app_shown(apps[k], query) ==> #[trigger] filter_for(
                apps,
                query,
            ).contains(k as usize),
{
    lemma_matching_exact(apps, query, apps.len() as int);
    lemma_matching_bounded(apps, query, apps.len() as int);
}

/// The empty query shows every app, in list order.
pub proof fn law_empty_query_shows_all(apps: Seq<AppConfig>)
    requires
        apps.len() <= usize::MAX,
    ensures
        filter_for(apps, Seq::empty()).len() == apps.len(),
        forall|i: int| 0 <= i < apps.len() ==> #[trigger] filter_for(apps, Seq::empty())[i] == i,
{
    lemma_all_match(apps, Seq::empty(), apps.len() as int);
}

proof fn lemma_all_match(apps: Seq<AppConfig>, q: Seq<char>, n: int)
    requires
        q.len() == 0,
        0 <= n <= apps.len(),
        apps.len() <= usize::MAX,
    ensures
        matching_upto(apps, q, n).len() == n,
        forall|i: int| 0 <= i < n ==> #[trigger] matching_upto(apps, q, n)[i] == i,
    decreases n,
{
    if n > 0 {
        lemma_all_match(apps, q, n - 1);
        assert(app_shown(apps[n - 1], q));
        let r = matching_upto(apps, q, n - 1);
        assert(matching_upto(apps, q, n) == r.push((n - 1) as usize));
    }
}

/// Switching form fields twice comes back to the same field.
pub proof fn law_tab_twice_is_identity(f: FormField)
    ensures
        toggle_field(toggle_field(f)) == f,
{
}

/// In a search, typing a character and erasing it again gives back the query and the
/// rows shown for it.
pub proof fn law_search_type_then_erase(s: AppView, c: char)
    requires
        s.mode == Mode::Search,
        s.filtered == filter_for(s.apps, s.search_query),
    ensures
        ({
            let t = search_step(search_step(s, Key::Char(c)), Key::Backspace);
            &&& t.search_query == s.search_query
            &&& t.filtered == s.filtered
            &&& t.apps == s.apps
            &&& t.mode == Mode::Search
        }),
{
    assert(s.search_query.push(c).drop_last() =~= s.search_query);
}

/// Leaving a search with Esc clears the query and lists the apps the empty query
/// matches; Enter keeps the query and the rows.
pub proof fn law_search_leave(s: AppView)
    requires
        s.mode == Mode::Search,
    ensures
        search_step(s, Key::Esc).search_query.len() == 0,
        search_step(s, Key::Esc).filtered == filter_for(s.apps, Seq::empty()),
        s.apps.len() <= usize::MAX ==> search_step(s, Key::Esc).filtered.len() == s.apps.len(),
        s.apps.len() <= usize::MAX ==> forall|i: int|
            0 <= i < s.apps.len() ==> #[trigger] search_step(s, Key::Esc).filtered[i] == i,
        search_step(s, Key::Esc).mode == Mode::Normal,
        search_step(s, Key::Enter).search_query == s.search_query,
        search_step(s, Key::Enter).filtered == s.filtered,
        search_step(s, Key::Enter).mode == Mode::Normal,
{
    if s.apps.len() <= usize::MAX {
        law_empty_query_shows_all(s.apps);
    }
}

proof fn lemma_https_prefix(u: Seq<char>)
    ensures
        has_prefix(normalized_url(u), "http://"@) || has_prefix(normalized_url(u), "https://"@),
{
    let t = trim(u);
    if !(has_prefix(t, "http://"@) || has_prefix(t, "https://"@)) {
        assert(("https://"@ + t).take("https://"@.len() as int) =~= "https://"@);
    }
}

/// A save asked of the caller always carries a non-empty trimmed name and a URL that
/// starts with `http://` or `https://` and that the `url` crate accepts.
pub proof fn law_save_requests_are_valid(s: AppView, key: Key, ctrl: bool)
    ensures
        match step(s, key, ctrl).1 {
            EffectView::Create { name, url } | EffectView::Update { name, url, .. } => {
                &&& name == trim(s.name_input)
                &&& name.len() > 0
                &&& url == normalized_url(s.url_input)
                &&& (has_prefix(url, "http://"@) || has_prefix(url, "https://"@))
                &&& url_serialization(url) is Some
            },
            _ => true,
        },
{
    lemma_https_prefix(s.url_input);
}

/// Only the `q` key in the list sets the quit flag.
pub proof fn law_only_q_quits(s: AppView, key: Key, ctrl: bool)
    requires
        !s.should_quit,
        step(s, key, ctrl).0.should_quit,
    ensures
        s.mode == Mode::Normal,
        key == Key::Char('q'),
{
}

/// Key presses never change the list of apps; only re-reading it does.
pub proof fn law_step_keeps_apps(s: AppView, key: Key, ctrl: bool)
    ensures
        step(s, key, ctrl).0.apps == s.apps,
{
}

/// Opening and deleting act on the highlighted app and on nothing else.
pub proof fn law_effects_target_selection(s: AppView, key: Key, ctrl: bool)
    ensures
        match step(s, key, ctrl).1 {
            EffectView::Open { id } => selected_of(s) matches Some(a) && id == a.id@,
            EffectView::Delete { id, name } => selected_of(s) matches Some(a) && id == a.id@
                && name == a.name@,
            _ => true,
        },
{
}

/// In the confirmation prompt every key but `y`/`Y` cancels: back to the list, no
/// message, nothing deleted.
pub proof fn law_confirm_cancels(s: AppView, key: Key, ctrl: bool)
    requires
        s.mode == Mode::ConfirmDelete,
        key != Key::Char('y'),
        key != Key::Char('Y'),
    ensures
        step(s, key, ctrl).0 == (AppView { mode: Mode::Normal, status: None, ..s }),
        step(s, key, ctrl).1 is Nothing,
{
}


/// Search keeps exactly the apps whose lowercased name or lowercased URL contains the
/// lowercased query (every app when the query is empty), each once, in list order.
pub proof fn law_search_matches_name_or_url(s: AppView)
    requires
        s.apps.len() <= usize::MAX,
    ensures
        forall|k: int|
            0 <= k < s.apps.len() ==> (#[trigger] after_filter(s).filtered.contains(k as usize) <==> (
            s.search_query.len() == 0 || contains_seq(
                lowercase(s.apps[k].name@),
                lowercase(s.search_query),
            ) || contains_seq(lowercase(s.apps[k].url@), lowercase(s.search_query)))),
        forall|i: int|
            0 <= i < after_filter(s).filtered.len() ==> #[trigger] after_filter(s).filtered[i]
                < s.apps.len(),
        forall|i: int, j: int|
            0 <= i < j < after_filter(s).filtered.len() ==> after_filter(s).filtered[i]
                < after_filter(s).filtered[j],
{
    let f = after_filter(s).filtered;
    law_filter_exact(s.apps, s.search_query);
    assert forall|k: int| 0 <= k < s.apps.len() implies (#[trigger] f.contains(k as usize) <==> (
    s.search_query.len() == 0 || contains_seq(lowercase(s.apps[k].name@), lowercase(s.search_query))
        || contains_seq(lowercase(s.apps[k].url@), lowercase(s.search_query)))) by {
        if f.contains(k as usize) {
            let w = choose|w: int| 0 <= w < f.len() && f[w] == k as usize;
            assert(app_shown(s.apps[f[w] as int], s.search_query));
        }
        if app_shown(s.apps[k], s.search_query) {
            assert(f.contains(k as usize));
        }
    }
}

/// Open and delete act on the app of the highlighted row, that is the app at the
/// row's index into the list, and `e` loads that same app into the form.
pub proof fn law_actions_use_highlighted_row(s: AppView)
    requires
        wf(s),
        s.filtered.len() > 0,
    ensures
        ({
            let i = s.filtered[s.selected as int];
            let a = s.apps[i as int];
            let n = AppView { mode: Mode::Normal, ..s };
            let c = AppView { mode: Mode::ConfirmDelete, ..s };
            let e = step(n, Key::Char('e'), false).0;
            &&& step(n, Key::Char('o'), false).1 == (EffectView::Open { id: a.id@ })
            &&& step(n, Key::Enter, false).1 == (EffectView::Open { id: a.id@ })
            &&& step(n, Key::Char('d'), false).0.mode == Mode::ConfirmDelete
            &&& step(c, Key::Char('y'), false).1 == (EffectView::Delete { id: a.id@, name: a.name@ })
            &&& e.mode == Mode::Form(FormKind::Edit(i))
            &&& e.name_input == a.name@
            &&& e.url_input == a.url@
        }),
{
    assert(s.filtered[s.selected as int] < s.apps.len());
}

/// A save in the edit form asks to update the app whose name and URL `e` loaded into
/// it: entering the form on the highlighted row and saving (with whatever name and URL
/// the form then holds) names that app's id, never another's.
pub proof fn law_edit_updates_the_loaded_app(s: AppView, key: Key, ctrl: bool)
    requires
        wf(s),
        s.filtered.len() > 0,
        s.mode == Mode::Normal,
    ensures
        ({
            let a = s.apps[s.filtered[s.selected as int] as int];
            let e = step(s, Key::Char('e'), false).0;
            match step(e, key, ctrl).1 {
                EffectView::Update { id, .. } => id == a.id@,
                _ => true,
            }
        }),
{
    assert(s.filtered[s.selected as int] < s.apps.len());
}

/// In the form for editing the app at index `i`, a save asks to update exactly that
/// app's id, with the trimmed name and the normalized URL of the form.
pub proof fn law_edit_form_updates_its_app(t: AppView, key: Key, ctrl: bool, i: usize)
    requires
        t.mode == Mode::Form(FormKind::Edit(i)),
        i < t.apps.len(),
    ensures
        match step(t, key, ctrl).1 {
            EffectView::Update { id, name, url } => id == t.apps[i as int].id@ && name == trim(
                t.name_input,
            ) && url == normalized_url(t.url_input),
            _ => true,
        },
{
}

}
