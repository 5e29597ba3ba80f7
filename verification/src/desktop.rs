//! Desktop menu entries (`.desktop` files) for saved PWAs.

use vstd::prelude::*;
use vstd::string::*;
use crate::config::{bytes_of, join_path, path_join, user_data_dir, AppConfig};
use crate::text::{contains_seq, occurs_at};

verus! {

/// The window class (Wayland `app_id`, X11 `WM_CLASS`) of the PWA `app_id`: `lycan-<id>`.
pub open spec fn window_class_of(app_id: Seq<char>) -> Seq<char> {
    "lycan-"@ + app_id
}

/// The file name of the menu entry of the PWA `app_id`: `lycan-<id>.desktop`.
pub open spec fn desktop_file_name_of(app_id: Seq<char>) -> Seq<char> {
    "lycan-"@ + app_id + ".desktop"@
}

pub fn window_class(app_id: &str) -> (res: String)
    ensures
        res@ == window_class_of(app_id@),
{
    let mut s = String::from_str("lycan-");
    s.append(app_id);
    s
}

pub fn desktop_file_name(app_id: &str) -> (res: String)
    ensures
        res@ == desktop_file_name_of(app_id@),
{
    let mut s = window_class(app_id);
    s.append(".desktop");
    s
}

/// `<base>/applications/lycan-<id>.desktop`, where the menu entry of `app_id` goes
/// under the data directory `base` (the bytes of a path).
pub fn desktop_file_path_in(base: &[u8], app_id: &str) -> (res: Vec<u8>)
    ensures
        res@ == path_join(
            path_join(base@, bytes_of("applications"@)),
            bytes_of(desktop_file_name_of(app_id@)),
        ),
{
    let dir = join_path(base, "applications".as_bytes());
    let name = desktop_file_name(app_id);
    join_path(dir.as_slice(), name.as_str().as_bytes())
}

/// The directory that holds menu entries (`<data dir>/applications`), or `None` when
/// the data directory is unknown.
pub fn applications_dir() -> (res: Option<Vec<u8>>)
    ensures
        res matches Some(d) ==> exists|base: Seq<u8>|
            d@ == path_join(base, bytes_of("applications"@)),
{
    match user_data_dir() {
        Some(base) => {
            let d = join_path(base.as_slice(), "applications".as_bytes());
            assert(d@ == path_join(base@, bytes_of("applications"@)));
            Some(d)
        },
        None => None,
    }
}

/// The menu entry file of `app_id`, or `None` when the data directory is unknown.
pub fn desktop_file_path(app_id: &str) -> (res: Option<Vec<u8>>)
    ensures
        res matches Some(p) ==> exists|base: Seq<u8>|
            p@ == path_join(
                path_join(base, bytes_of("applications"@)),
                bytes_of(desktop_file_name_of(app_id@)),
            ),
{
    match user_data_dir() {
        Some(base) => Some(desktop_file_path_in(base.as_slice(), app_id)),
        None => None,
    }
}

/// The text of the menu entry that launches `<exec> open <id>` under the name and
/// icon of the PWA.
pub open spec fn desktop_entry_text(
    name: Seq<char>,
    exec: Seq<char>,
    id: Seq<char>,
    icon: Seq<char>,
) -> Seq<char> {
    "[Desktop Entry]\nName="@ + name + "\nExec="@ + exec + " open "@ + id + "\nIcon="@ + icon
        + "\nType=Application\nCategories=Network;WebApp;\nStartupWMClass="@ + window_class_of(id)
        + "\n"@
}

/// The menu entry of `config`, launched through the program at `exec` and shown with
/// the icon at `icon`.
pub fn desktop_entry(config: &AppConfig, exec: &str, icon: &str) -> (res: String)
    ensures
        res@ == desktop_entry_text(config.name@, exec@, config.id@, icon@),
{
    let mut s = String::from_str("[Desktop Entry]\nName=");
    s.append(config.name.as_str());
    s.append("\nExec=");
    s.append(exec);
    s.append(" open ");
    s.append(config.id.as_str());
    s.append("\nIcon=");
    s.append(icon);
    s.append("\nType=Application\nCategories=Network;WebApp;\nStartupWMClass=");
    let class = window_class(config.id.as_str());
    s.append(class.as_str());
    s.append("\n");
    s
}

/// The menu entry file is named after the window class of the PWA, which is how
/// compositors match a window to its entry (and its icon).
pub proof fn law_entry_file_matches_window_class(app_id: Seq<char>)
    ensures
        desktop_file_name_of(app_id) == window_class_of(app_id) + ".desktop"@,
{
}

/// The menu entry declares the same window class as the window that the PWA opens.
pub proof fn law_entry_declares_window_class(
    name: Seq<char>,
    exec: Seq<char>,
    id: Seq<char>,
    icon: Seq<char>,
)
    ensures
        contains_seq(
            desktop_entry_text(name, exec, id, icon),
            "StartupWMClass="@ + window_class_of(id) + "\n"@,
        ),
{
    let t = desktop_entry_text(name, exec, id, icon);
    let front = "[Desktop Entry]\nName="@ + name + "\nExec="@ + exec + " open "@ + id + "\nIcon="@
        + icon + "\nType=Application\nCategories=Network;WebApp;\n"@;
    let needle = "StartupWMClass="@ + window_class_of(id) + "\n"@;
    reveal_strlit("\nType=Application\nCategories=Network;WebApp;\nStartupWMClass=");
    reveal_strlit("\nType=Application\nCategories=Network;WebApp;\n");
    reveal_strlit("StartupWMClass=");
    let a = "\nType=Application\nCategories=Network;WebApp;\nStartupWMClass="@;
    let b = "\nType=Application\nCategories=Network;WebApp;\n"@;
    let c = "StartupWMClass="@;
    assert(a =~= b + c);
    assert(t =~= front + needle);
    assert(t.subrange(front.len() as int, (front.len() + needle.len()) as int) =~= needle);
    assert(occurs_at(t, needle, front.len() as int));
}

}
