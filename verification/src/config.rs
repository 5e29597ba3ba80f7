//! Saved PWA records and where they live on disk.

use std::fmt::Write;
use vstd::prelude::*;
use vstd::string::*;
use vstd::slice::slice_to_vec;
use vstd::utf8::{encode_utf8, encode_utf8_decode_utf8, is_ascii_chars, is_ascii_chars_encode_utf8};
use crate::text::{
    chars_of, lemma_lex_irreflexive, lemma_lex_transitive,
    lex_less, lex_lt, lowercase, to_lowercase,
};

verus! {

/// A point in time: seconds since the Unix epoch and the nanoseconds past that second.
#[derive(Clone, Copy, PartialEq, Eq, Structural, Debug)]
pub struct Timestamp {
    pub secs: i64,
    pub nanos: u32,
}

/// One saved PWA: its id (a slug of its name), display name, start URL and creation time.
#[derive(Debug)]
pub struct AppConfig {
    pub id: String,
    pub name: String,
    pub url: String,
    pub created_at: Timestamp,
}

/// A slug as `slug::slugify` documents its output: only `a`-`z`, `0`-`9` and `-`,
/// never two `-` in a row, never a `-` at either end.
pub open spec fn is_slug(s: Seq<char>) -> bool {
    &&& forall|i: int|
        0 <= i < s.len() ==> ('a' <= #[trigger] s[i] <= 'z' || '0' <= s[i] <= '9' || s[i] == '-')
    &&& forall|i: int| 0 <= i < s.len() - 1 ==> !(#[trigger] s[i] == '-' && s[i + 1] == '-')
    &&& s.len() > 0 ==> s[0] != '-' && s.last() != '-'
}

/// What `slug::slugify` returns for a string with characters `s`.
pub uninterp spec fn slug_of(s: Seq<char>) -> Seq<char>;

/// Calls `slug::slugify`. Its result is named `slug_of`; the contract also claims the
/// shape that the crate documents (and its source keeps) for every output: `is_slug`.
#[verifier::external_body]
fn slugify(s: &str) -> (res: String)
    ensures
        res@ == slug_of(s@),
        is_slug(res@),
{
    slug::slugify(s)
}

impl AppConfig {
    /// A new record for `name` and `url`, created at `created_at` (the caller reads
    /// the clock): its id is the slug of the name.
    pub fn new(name: &str, url: &str, created_at: Timestamp) -> (res: AppConfig)
        ensures
            res.id@ == slug_of(name@),
            is_slug(res.id@),
            res.name@ == name@,
            res.url@ == url@,
            res.created_at == created_at,
    {
        AppConfig {
            id: slugify(name),
            name: String::from_str(name),
            url: String::from_str(url),
            created_at,
        }
    }

    /// The record after an edit that gives it the name `new_name` and the URL
    /// `new_url`: id and creation time stay. The flag tells whether the URL changed,
    /// which is when the site's icon has to be fetched again.
    pub fn edited(&self, new_name: &str, new_url: &str) -> (res: (AppConfig, bool))
        ensures
            res.0.id@ == self.id@,
            res.0.created_at == self.created_at,
            res.0.name@ == new_name@,
            res.0.url@ == new_url@,
            res.1 == (self.url@ != new_url@),
    {
        let url = String::from_str(new_url);
        let url_changed = !(self.url == url);
        (
            AppConfig {
                id: self.id.clone(),
                name: String::from_str(new_name),
                url,
                created_at: self.created_at,
            },
            url_changed,
        )
    }

    /// A copy of this record, field for field.
    pub fn duplicate(&self) -> (res: AppConfig)
        ensures
            res.id@ == self.id@,
            res.name@ == self.name@,
            res.url@ == self.url@,
            res.created_at == self.created_at,
    {
        AppConfig {
            id: self.id.clone(),
            name: self.name.clone(),
            url: self.url.clone(),
            created_at: self.created_at,
        }
    }
}

/// The byte `/` that separates the components of a path.
pub const SLASH: u8 = 47;

/// The bytes of a text as a path component: its UTF-8 encoding.
pub open spec fn bytes_of(s: Seq<char>) -> Seq<u8> {
    encode_utf8(s)
}

/// Joins `comp` onto the path `base`, both as the bytes of an OS path, the way
/// `PathBuf::push` does on Unix: an absolute `comp` replaces `base`; otherwise a `/`
/// goes between them unless `base` is empty or already ends with one.
pub open spec fn path_join(base: Seq<u8>, comp: Seq<u8>) -> Seq<u8> {
    if comp.len() > 0 && comp[0] == SLASH {
        comp
    } else if base.len() == 0 || base.last() == SLASH {
        base + comp
    } else {
        base + seq![SLASH] + comp
    }
}

pub fn join_path(base: &[u8], comp: &[u8]) -> (res: Vec<u8>)
    ensures
        res@ == path_join(base@, comp@),
{
    if comp.len() > 0 && comp[0] == SLASH {
        return slice_to_vec(comp);
    }
    let mut out = slice_to_vec(base);
    if !(base.len() == 0 || base[base.len() - 1] == SLASH) {
        out.push(SLASH);
    }
    let ghost start = out@;
    let mut i: usize = 0;
    while i < comp.len()
        invariant
            i <= comp.len(),
            out@ == start + comp@.take(i as int),
        decreases comp.len() - i,
    {
        out.push(comp[i]);
        proof {
            assert(comp@.take(i + 1) =~= comp@.take(i as int).push(comp@[i as int]));
        }
        i = i + 1;
    }
    proof {
        assert(comp@.take(comp.len() as int) =~= comp@);
    }
    out
}

/// The directory that holds one subdirectory per saved PWA, under the data directory `base`.
pub open spec fn apps_dir_path(base: Seq<u8>) -> Seq<u8> {
    path_join(path_join(base, bytes_of("lycan"@)), bytes_of("apps"@))
}

/// The directory of the PWA `app_id`.
pub open spec fn app_dir_path(base: Seq<u8>, app_id: Seq<char>) -> Seq<u8> {
    path_join(apps_dir_path(base), bytes_of(app_id))
}

/// `<base>/lycan/apps`.
pub fn apps_dir_in(base: &[u8]) -> (res: Vec<u8>)
    ensures
        res@ == apps_dir_path(base@),
{
    let l = join_path(base, "lycan".as_bytes());
    join_path(l.as_slice(), "apps".as_bytes())
}

/// `<base>/lycan/apps/<app_id>`.
pub fn app_dir_in(base: &[u8], app_id: &str) -> (res: Vec<u8>)
    ensures
        res@ == app_dir_path(base@, app_id@),
{
    let d = apps_dir_in(base);
    join_path(d.as_slice(), app_id.as_bytes())
}

/// `<base>/lycan/apps/<app_id>/icon.png`.
pub fn icon_path_in(base: &[u8], app_id: &str) -> (res: Vec<u8>)
    ensures
        res@ == path_join(app_dir_path(base@, app_id@), bytes_of("icon.png"@)),
{
    let d = app_dir_in(base, app_id);
    join_path(d.as_slice(), "icon.png".as_bytes())
}

/// `<base>/lycan/apps/<app_id>/config.json`.
pub fn config_path_in(base: &[u8], app_id: &str) -> (res: Vec<u8>)
    ensures
        res@ == path_join(app_dir_path(base@, app_id@), bytes_of("config.json"@)),
{
    let d = app_dir_in(base, app_id);
    join_path(d.as_slice(), "config.json".as_bytes())
}

/// `<base>/lycan/apps/<app_id>/webview`, where the web view of the PWA keeps its
/// cookies, storage and caches.
pub fn webview_data_dir_in(base: &[u8], app_id: &str) -> (res: Vec<u8>)
    ensures
        res@ == path_join(app_dir_path(base@, app_id@), bytes_of("webview"@)),
{
    let d = app_dir_in(base, app_id);
    join_path(d.as_slice(), "webview".as_bytes())
}

/// `<base>/lycan/webkit-tuning.json`, where the WebKit tuning profile is kept.
pub fn tuning_path_in(base: &[u8]) -> (res: Vec<u8>)
    ensures
        res@ == path_join(path_join(base@, bytes_of("lycan"@)), bytes_of("webkit-tuning.json"@)),
{
    let l = join_path(base, "lycan".as_bytes());
    join_path(l.as_slice(), "webkit-tuning.json".as_bytes())
}

/// The user's data directory from `dirs::data_dir` (on Linux `$XDG_DATA_HOME` or
/// `$HOME/.local/share`) as the bytes of the path (`OsString::into_encoded_bytes`,
/// on Unix the path's own bytes, whatever their encoding); `None` when `dirs` finds
/// none. It depends on the environment, so nothing is claimed of it.
#[verifier::external_body]
pub(crate) fn user_data_dir() -> (res: Option<Vec<u8>>) {
    match dirs::data_dir() {
        Some(p) => Some(p.into_os_string().into_encoded_bytes()),
        None => None,
    }
}

/// The directory that holds the saved PWAs, or `None` when the data directory is unknown.
pub fn data_dir() -> (res: Option<Vec<u8>>)
    ensures
        res matches Some(d) ==> exists|base: Seq<u8>| d@ == apps_dir_path(base),
{
    match user_data_dir() {
        Some(base) => Some(apps_dir_in(base.as_slice())),
        None => None,
    }
}

/// The directory of the PWA `app_id`, or `None` when the data directory is unknown.
pub fn app_dir(app_id: &str) -> (res: Option<Vec<u8>>)
    ensures
        res matches Some(d) ==> exists|base: Seq<u8>| d@ == app_dir_path(base, app_id@),
{
    match user_data_dir() {
        Some(base) => Some(app_dir_in(base.as_slice(), app_id)),
        None => None,
    }
}

/// The icon file of the PWA `app_id`, or `None` when the data directory is unknown.
pub fn icon_path(app_id: &str) -> (res: Option<Vec<u8>>)
    ensures
        res matches Some(d) ==> exists|base: Seq<u8>|
            d@ == path_join(app_dir_path(base, app_id@), bytes_of("icon.png"@)),
{
    match user_data_dir() {
        Some(base) => Some(icon_path_in(base.as_slice(), app_id)),
        None => None,
    }
}

/// The `config.json` of the PWA `app_id`, or `None` when the data directory is unknown.
pub fn config_path(app_id: &str) -> (res: Option<Vec<u8>>)
    ensures
        res matches Some(d) ==> exists|base: Seq<u8>|
            d@ == path_join(app_dir_path(base, app_id@), bytes_of("config.json"@)),
{
    match user_data_dir() {
        Some(base) => Some(config_path_in(base.as_slice(), app_id)),
        None => None,
    }
}

/// The web view data directory of the PWA `app_id`, or `None` when the data
/// directory is unknown.
pub fn webview_data_dir(app_id: &str) -> (res: Option<Vec<u8>>)
    ensures
        res matches Some(d) ==> exists|base: Seq<u8>|
            d@ == path_join(app_dir_path(base, app_id@), bytes_of("webview"@)),
{
    match user_data_dir() {
        Some(base) => Some(webview_data_dir_in(base.as_slice(), app_id)),
        None => None,
    }
}

/// The WebKit tuning file, or `None` when the data directory is unknown.
pub fn tuning_path() -> (res: Option<Vec<u8>>)
    ensures
        res matches Some(d) ==> exists|base: Seq<u8>|
            d@ == path_join(path_join(base, bytes_of("lycan"@)), bytes_of("webkit-tuning.json"@)),
{
    match user_data_dir() {
        Some(base) => Some(tuning_path_in(base.as_slice())),
        None => None,
    }
}

proof fn lemma_apps_dir_shape(base: Seq<u8>)
    ensures
        apps_dir_path(base).len() > 0,
        apps_dir_path(base).last() != SLASH,
{
    reveal_strlit("apps");
    let a = "apps"@;
    assert(is_ascii_chars(a));
    is_ascii_chars_encode_utf8(a);
    let b = bytes_of(a);
    assert(b.len() == 4);
    assert(b[0] == a[0] as u8);
    assert(b[3] == a[3] as u8);
    let l = path_join(base, bytes_of("lycan"@));
    assert(path_join(l, b).last() == b[3]);
}

proof fn lemma_slug_bytes(id: Seq<char>)
    requires
        is_slug(id),
    ensures
        bytes_of(id).len() > 0 ==> bytes_of(id)[0] != SLASH,
{
    assert(is_ascii_chars(id)) by {
        assert forall|i: int| 0 <= i < id.len() implies '\0' <= #[trigger] id[i] <= '\u{7f}' by {
            assert('a' <= id[i] <= 'z' || '0' <= id[i] <= '9' || id[i] == '-');
        }
    }
    is_ascii_chars_encode_utf8(id);
    if id.len() > 0 {
        assert(bytes_of(id)[0] == id[0] as u8);
        assert('a' <= id[0] <= 'z' || '0' <= id[0] <= '9' || id[0] == '-');
    }
}

/// Each PWA gets a directory of its own: the directories of two different slugs are
/// different, and each is the apps directory, a `/`, and the slug.
pub proof fn law_app_dirs_distinct(base: Seq<u8>, id1: Seq<char>, id2: Seq<char>)
    requires
        is_slug(id1),
        is_slug(id2),
        id1 != id2,
    ensures
        app_dir_path(base, id1) == apps_dir_path(base) + seq![SLASH] + bytes_of(id1),
        app_dir_path(base, id1) != app_dir_path(base, id2),
{
    lemma_apps_dir_shape(base);
    lemma_slug_bytes(id1);
    lemma_slug_bytes(id2);
    let a = apps_dir_path(base) + seq![SLASH];
    let b1 = bytes_of(id1);
    let b2 = bytes_of(id2);
    assert(app_dir_path(base, id1) =~= a + b1);
    assert(app_dir_path(base, id2) =~= a + b2);
    if a + b1 == a + b2 {
        assert((a + b1).skip(a.len() as int) =~= b1);
        assert((a + b2).skip(a.len() as int) =~= b2);
        encode_utf8_decode_utf8(id1);
        encode_utf8_decode_utf8(id2);
    }
}


/// The key the list is sorted by: the lowercased name.
pub open spec fn name_key(a: AppConfig) -> Seq<char> {
    lowercase(a.name@)
}

/// `p` is a permutation of `0..n`.
pub open spec fn is_permutation(p: Seq<int>, n: int) -> bool {
    &&& p.len() == n
    &&& forall|k: int| 0 <= k < n ==> 0 <= #[trigger] p[k] < n
    &&& forall|k1: int, k2: int| 0 <= k1 < n && 0 <= k2 < n && k1 != k2 ==> p[k1] != p[k2]
}

/// `res` is `input` rearranged by `p` so that the lowercased names never decrease,
/// with apps of equal keys kept in their input order.
pub open spec fn sorted_by_name_via(res: Seq<AppConfig>, input: Seq<AppConfig>, p: Seq<int>) -> bool {
    &&& res.len() == input.len()
    &&& is_permutation(p, input.len() as int)
    &&& forall|k: int| 0 <= k < res.len() ==> res[k] == input[#[trigger] p[k]]
    &&& forall|k1: int, k2: int|
        0 <= k1 < k2 < res.len() ==> !lex_lt(name_key(#[trigger] res[k2]), name_key(#[trigger] res[k1]))
    &&& forall|k1: int, k2: int|
        0 <= k1 < k2 < res.len() && name_key(#[trigger] res[k1]) == name_key(#[trigger] res[k2])
            ==> p[k1] < p[k2]
}

/// `res` is the stable sort of `input` by lowercased name.
pub open spec fn is_sorted_by_name(res: Seq<AppConfig>, input: Seq<AppConfig>) -> bool {
    exists|p: Seq<int>| sorted_by_name_via(res, input, p)
}

proof fn lemma_insert_sorted(
    out: Seq<AppConfig>,
    input: Seq<AppConfig>,
    p: Seq<int>,
    i: int,
    pos: int,
    a: AppConfig,
)
    requires
        0 <= i < input.len(),
        a == input[i],
        sorted_by_name_via(out, input.take(i), p),
        0 <= pos <= i,
        forall|k: int| 0 <= k < pos ==> !lex_lt(name_key(a), name_key(#[trigger] out[k])),
        pos < i ==> lex_lt(name_key(a), name_key(out[pos])),
    ensures
        sorted_by_name_via(out.insert(pos, a), input.take(i + 1), p.insert(pos, i)),
{
    let out2 = out.insert(pos, a);
    let p2 = p.insert(pos, i);
    let in1 = input.take(i);
    let in2 = input.take(i + 1);
    let ka = name_key(a);
    assert(out.len() == i);
    assert(out2.len() == i + 1);
    assert(p2.len() == i + 1);
    // where each position of the new sequences comes from
    assert forall|k: int| 0 <= k < i + 1 implies (#[trigger] out2[k] == (if k < pos {
        out[k]
    } else if k == pos {
        a
    } else {
        out[k - 1]
    })) && p2[k] == (if k < pos {
        p[k]
    } else if k == pos {
        i
    } else {
        p[k - 1]
    }) by {}
    assert forall|k: int| 0 <= k < i + 1 implies 0 <= #[trigger] p2[k] < i + 1 by {
        if k < pos {
            assert(0 <= p[k] < i);
        } else if k > pos {
            assert(0 <= p[k - 1] < i);
        }
    }
    assert forall|k1: int, k2: int| 0 <= k1 < i + 1 && 0 <= k2 < i + 1 && k1 != k2 implies p2[k1]
        != p2[k2] by {
        let j1 = if k1 < pos {
            k1
        } else {
            k1 - 1
        };
        let j2 = if k2 < pos {
            k2
        } else {
            k2 - 1
        };
        if k1 != pos && k2 != pos {
            assert(p2[k1] == p[j1]);
            assert(p2[k2] == p[j2]);
        } else if k1 == pos {
            assert(p2[k2] == p[j2]);
            assert(p[j2] < i);
        } else {
            assert(p2[k1] == p[j1]);
            assert(p[j1] < i);
        }
    }
    assert forall|k: int| 0 <= k < out2.len() implies out2[k] == in2[#[trigger] p2[k]] by {
        if k < pos {
            assert(out[k] == in1[p[k]]);
            assert(0 <= p[k] < i);
        } else if k > pos {
            assert(out[k - 1] == in1[p[k - 1]]);
            assert(0 <= p[k - 1] < i);
        }
    }
    assert forall|k1: int, k2: int| 0 <= k1 < k2 < out2.len() implies !lex_lt(
        name_key(#[trigger] out2[k2]),
        name_key(#[trigger] out2[k1]),
    ) by {
        if k1 != pos && k2 != pos {
            let j1 = if k1 < pos {
                k1
            } else {
                k1 - 1
            };
            let j2 = if k2 < pos {
                k2
            } else {
                k2 - 1
            };
            assert(out2[k1] == out[j1]);
            assert(out2[k2] == out[j2]);
            assert(j1 < j2);
            assert(!lex_lt(name_key(out[j2]), name_key(out[j1])));
        } else if k2 == pos {
            assert(out2[k1] == out[k1]);
            assert(!lex_lt(ka, name_key(out[k1])));
        } else {
            let j = k2 - 1;
            assert(out2[k2] == out[j]);
            assert(pos <= j < i);
            if lex_lt(name_key(out[j]), ka) {
                lemma_lex_transitive(name_key(out[j]), ka, name_key(out[pos]));
                if j == pos {
                    lemma_lex_irreflexive(name_key(out[pos]));
                } else {
                    assert(!lex_lt(name_key(out[j]), name_key(out[pos])));
                }
            }
        }
    }
    assert forall|k1: int, k2: int|
        0 <= k1 < k2 < out2.len() && name_key(#[trigger] out2[k1]) == name_key(
            #[trigger] out2[k2],
        ) implies p2[k1] < p2[k2] by {
        if k1 != pos && k2 != pos {
            let j1 = if k1 < pos {
                k1
            } else {
                k1 - 1
            };
            let j2 = if k2 < pos {
                k2
            } else {
                k2 - 1
            };
            assert(out2[k1] == out[j1]);
            assert(out2[k2] == out[j2]);
            assert(p[j1] < p[j2]);
        } else if k2 == pos {
            assert(p2[k1] == p[k1]);
            assert(p[k1] < i);
        } else {
            let j = k2 - 1;
            assert(out2[k2] == out[j]);
            assert(name_key(out[j]) == ka);
            if j == pos {
                lemma_lex_irreflexive(ka);
            } else {
                assert(!lex_lt(name_key(out[j]), name_key(out[pos])));
            }
        }
    }
}

/// Sorts the saved PWAs by name, ignoring case, keeping the order of PWAs whose
/// lowercased names are equal (the order the directory listing gave them in).
pub fn sort_by_name(apps: Vec<AppConfig>) -> (res: Vec<AppConfig>)
    ensures
        is_sorted_by_name(res@, apps@),
        res.len() == apps.len(),
        forall|k1: int, k2: int|
            0 <= k1 < k2 < res.len() ==> !lex_lt(
                lowercase(#[trigger] res@[k2].name@),
                lowercase(#[trigger] res@[k1].name@),
            ),
{
    let ghost input = apps@;
    let n = apps.len();
    let mut src = apps;
    let mut out: Vec<AppConfig> = Vec::new();
    let mut keys: Vec<Vec<char>> = Vec::new();
    let ghost mut p: Seq<int> = Seq::empty();
    let mut i: usize = 0;
    proof {
        assert(input.skip(0) =~= input);
        assert(sorted_by_name_via(out@, input.take(0), p));
    }
    while i < n
        invariant
            n == input.len(),
            i <= n,
            src@ == input.skip(i as int),
            out.len() == i,
            keys.len() == i,
            forall|k: int| 0 <= k < i ==> #[trigger] keys@[k]@ == name_key(out@[k]),
            sorted_by_name_via(out@, input.take(i as int), p),
        decreases n - i,
    {
        let a = src.remove(0);
        proof {
            assert(input.skip(i as int).remove(0) =~= input.skip(i + 1));
        }
        let key_text = to_lowercase(a.name.as_str());
        let key = chars_of(key_text.as_str());
        let mut pos: usize = 0;
        while pos < i && !lex_less(&key, &keys[pos])
            invariant
                out.len() == i,
                keys.len() == i,
                pos <= i,
                key@ == name_key(a),
                forall|k: int| 0 <= k < i ==> #[trigger] keys@[k]@ == name_key(out@[k]),
                forall|k: int| 0 <= k < pos ==> !lex_lt(name_key(a), name_key(#[trigger] out@[k])),
            decreases i - pos,
        {
            pos = pos + 1;
        }
        let ghost old_keys = keys@;
        let ghost old_out = out@;
        proof {
            lemma_insert_sorted(old_out, input, p, i as int, pos as int, a);
            p = p.insert(pos as int, i as int);
        }
        out.insert(pos, a);
        keys.insert(pos, key);
        proof {
            assert forall|k: int| 0 <= k < i + 1 implies #[trigger] keys@[k]@ == name_key(out@[k]) by {
                if k < pos {
                    assert(keys@[k] == old_keys[k]);
                    assert(out@[k] == old_out[k]);
                } else if k > pos {
                    assert(keys@[k] == old_keys[k - 1]);
                    assert(out@[k] == old_out[k - 1]);
                }
            }
        }
        i = i + 1;
    }
    proof {
        assert(input.take(n as int) =~= input);
        law_sorted_by_whole_lowercased_name(out@, input);
    }
    out
}

/// A list sorted by name holds the apps of the input, each as often, and orders them
/// by their whole lowercased names: no app comes after one whose lowercased name is
/// greater in code point order; apps whose lowercased names are equal keep their
/// input order.
pub proof fn law_sorted_by_whole_lowercased_name(res: Seq<AppConfig>, input: Seq<AppConfig>)
    requires
        is_sorted_by_name(res, input),
    ensures
        res.len() == input.len(),
        forall|k1: int, k2: int|
            0 <= k1 < k2 < res.len() ==> !lex_lt(
                lowercase(#[trigger] res[k2].name@),
                lowercase(#[trigger] res[k1].name@),
            ),
        exists|p: Seq<int>| {
            &&& p.len() == input.len()
            &&& forall|k: int| 0 <= k < res.len() ==> 0 <= #[trigger] p[k] < input.len()
                && res[k] == input[p[k]]
            &&& forall|k1: int, k2: int|
                0 <= k1 < res.len() && 0 <= k2 < res.len() && k1 != k2 ==> p[k1] != p[k2]
            &&& forall|k1: int, k2: int|
                0 <= k1 < k2 < res.len() && lowercase(#[trigger] res[k1].name@) == lowercase(
                    #[trigger] res[k2].name@,
                ) ==> p[k1] < p[k2]
        },
{
    let p = choose|p: Seq<int>| sorted_by_name_via(res, input, p);
    assert forall|k1: int, k2: int| 0 <= k1 < k2 < res.len() implies !lex_lt(
        lowercase(#[trigger] res[k2].name@),
        lowercase(#[trigger] res[k1].name@),
    ) by {
        assert(!lex_lt(name_key(res[k2]), name_key(res[k1])));
    }
    assert forall|k1: int, k2: int|
        0 <= k1 < k2 < res.len() && lowercase(#[trigger] res[k1].name@) == lowercase(
            #[trigger] res[k2].name@,
        ) implies p[k1] < p[k2] by {
        assert(name_key(res[k1]) == name_key(res[k2]));
    }
    assert forall|k: int| 0 <= k < res.len() implies 0 <= #[trigger] p[k] < input.len()
        && res[k] == input[p[k]] by {
        assert(res[k] == input[p[k]]);
    }
}




/// The text of the UTC time `secs` seconds and `nanos` nanoseconds after the Unix epoch
/// in the `chrono` format `fmt`, or `None` when chrono cannot represent the time or
/// the format does not apply.
pub uninterp spec fn utc_format_of(secs: int, nanos: int, fmt: Seq<char>) -> Option<Seq<char>>;

/// Builds the time with `chrono::DateTime::from_timestamp` and writes it with
/// `DateTime::format(fmt)`. The contract names the text (`utc_format_of`) as a
/// function of the three arguments.
#[verifier::external_body]
fn format_utc(secs: i64, nanos: u32, fmt: &str) -> (res: Option<String>)
    ensures
        crate::weburl::opt_view(res) == utc_format_of(secs as int, nanos as int, fmt@),
{
    match chrono::DateTime::from_timestamp(secs, nanos) {
        Some(d) => {
            let mut s = String::new();
            match write!(s, "{}", d.format(fmt)) {
                Ok(()) => Some(s),
                Err(_) => None,
            }
        },
        None => None,
    }
}

/// The creation date of a record as the list shows it: `YYYY-MM-DD` in UTC (empty
/// when the time cannot be represented).
pub fn created_date(t: Timestamp) -> (res: String)
    ensures
        res@ == (match utc_format_of(t.secs as int, t.nanos as int, "%Y-%m-%d"@) {
            Some(d) => d,
            None => Seq::empty(),
        }),
{
    match format_utc(t.secs, t.nanos, "%Y-%m-%d") {
        Some(d) => d,
        None => String::new(),
    }
}

}
