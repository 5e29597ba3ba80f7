//! WebKit tuning for this machine: the saved profile, how it is recommended from
//! the GPU and session, and which WebKit environment variables a window sets.

use vstd::prelude::*;
use crate::numparse::{parse_u64, parse_u64_chars};
use crate::text::{chars_of, has_prefix, next_word, starts_with_chars, trim, trim_str, words};

verus! {

/// The tuning profile kept in `webkit-tuning.json`.
#[derive(Clone, Copy, PartialEq, Eq, Structural, Debug)]
pub struct WebKitTuningProfile {
    pub version: u32,
    /// Set `WEBKIT_DISABLE_DMABUF_RENDERER=1` (recommended on NVIDIA).
    pub disable_dmabuf: bool,
    /// Set `WEBKIT_DISABLE_COMPOSITING_MODE=1`.
    pub disable_compositing: bool,
}

impl Default for WebKitTuningProfile {
    /// Version 1, nothing disabled; also what missing fields of a saved profile read as.
    fn default() -> (res: Self)
        ensures
            res == (WebKitTuningProfile {
                version: 1,
                disable_dmabuf: false,
                disable_compositing: false,
            }),
    {
        WebKitTuningProfile { version: 1, disable_dmabuf: false, disable_compositing: false }
    }
}

/// The profile recommended for a machine: DMA-BUF rendering off on NVIDIA, and
/// compositing mode off too when that NVIDIA machine runs a Wayland session.
pub fn compute_recommended(nvidia: bool, wayland: bool) -> (res: WebKitTuningProfile)
    ensures
        res == (WebKitTuningProfile {
            version: 1,
            disable_dmabuf: nvidia,
            disable_compositing: nvidia && wayland,
        }),
{
    WebKitTuningProfile { version: 1, disable_dmabuf: nvidia, disable_compositing: nvidia && wayland }
}

/// Which profile to use at start-up.
#[derive(Clone, Copy, PartialEq, Eq, Structural, Debug)]
pub enum ProfileChoice {
    /// The saved profile, as read.
    Saved(WebKitTuningProfile),
    /// The recommended profile, to be saved for next time.
    Recommended(WebKitTuningProfile),
}

/// The saved profile when there is one and its version is at least 1; otherwise the
/// recommended one, which is then to be saved.
pub fn choose_profile(saved: Option<WebKitTuningProfile>, recommended: WebKitTuningProfile) -> (res:
    ProfileChoice)
    ensures
        res == (match saved {
            Some(p) => if p.version >= 1 {
                ProfileChoice::Saved(p)
            } else {
                ProfileChoice::Recommended(recommended)
            },
            None => ProfileChoice::Recommended(recommended),
        }),
{
    match saved {
        Some(p) => {
            if p.version >= 1 {
                ProfileChoice::Saved(p)
            } else {
                ProfileChoice::Recommended(recommended)
            }
        },
        None => ProfileChoice::Recommended(recommended),
    }
}

/// A directory entry of `/sys/class/drm`: its name and, when it could be read, the
/// contents of its `device/vendor` file.
pub struct DrmEntry {
    pub name: String,
    pub vendor: Option<String>,
}

pub open spec fn is_ascii_digit(c: char) -> bool {
    '0' <= c && c <= '9'
}

/// A DRM card node name: `card` followed by one or more ASCII digits, with no `-`
/// (connector entries such as `card0-HDMI-A-1` are excluded).
pub open spec fn is_card_name(n: Seq<char>) -> bool {
    &&& has_prefix(n, "card"@)
    &&& forall|i: int| 0 <= i < n.len() ==> #[trigger] n[i] != '-'
    &&& n.len() > 4
    &&& forall|i: int| 4 <= i < n.len() ==> is_ascii_digit(#[trigger] n[i])
}

pub fn is_drm_card_name(name: &str) -> (res: bool)
    ensures
        res == is_card_name(name@),
{
    let n = chars_of(name);
    let card = chars_of("card");
    proof {
        reveal_strlit("card");
    }
    if !starts_with_chars(&n, &card) || n.len() <= 4 {
        return false;
    }
    let mut i: usize = 0;
    while i < n.len()
        invariant
            n@ == name@,
            4 < n.len(),
            i <= n.len(),
            forall|k: int| 0 <= k < i ==> #[trigger] n@[k] != '-',
            forall|k: int| 4 <= k < i ==> is_ascii_digit(#[trigger] n@[k]),
        decreases n.len() - i,
    {
        if n[i] == '-' {
            return false;
        }
        if i >= 4 && !('0' <= n[i] && n[i] <= '9') {
            return false;
        }
        i = i + 1;
    }
    true
}

/// The code of `c` with ASCII capitals mapped to small letters.
pub open spec fn ascii_lower(c: char) -> u32 {
    if 'A' <= c && c <= 'Z' {
        ((c as u32) + 32) as u32
    } else {
        c as u32
    }
}

/// `a` and `b` are equal when ASCII letters are compared without case, as
/// `str::eq_ignore_ascii_case` tests.
pub open spec fn eq_ignore_ascii_case(a: Seq<char>, b: Seq<char>) -> bool {
    a.len() == b.len() && forall|i: int| 0 <= i < a.len() ==> ascii_lower(#[trigger] a[i])
        == ascii_lower(b[i])
}

fn ascii_lower_char(c: char) -> (res: u32)
    ensures
        res == ascii_lower(c),
{
    if 'A' <= c && c <= 'Z' {
        (c as u32) + 32
    } else {
        c as u32
    }
}

fn eq_ignore_ascii_case_chars(a: &Vec<char>, b: &Vec<char>) -> (res: bool)
    ensures
        res == eq_ignore_ascii_case(a@, b@),
{
    if a.len() != b.len() {
        return false;
    }
    let mut i: usize = 0;
    while i < a.len()
        invariant
            a.len() == b.len(),
            i <= a.len(),
            forall|k: int| 0 <= k < i ==> ascii_lower(#[trigger] a@[k]) == ascii_lower(b@[k]),
        decreases a.len() - i,
    {
        if ascii_lower_char(a[i]) != ascii_lower_char(b[i]) {
            return false;
        }
        i = i + 1;
    }
    true
}

/// The PCI vendor file names NVIDIA: once trimmed it reads `0x10de`, in any case.
pub open spec fn is_nvidia_vendor(contents: Seq<char>) -> bool {
    eq_ignore_ascii_case(trim(contents), "0x10de"@)
}

pub fn is_nvidia_vendor_id(contents: &str) -> (res: bool)
    ensures
        res == is_nvidia_vendor(contents@),
{
    let t = trim_str(contents);
    let tc = chars_of(t.as_str());
    let id = chars_of("0x10de");
    eq_ignore_ascii_case_chars(&tc, &id)
}

/// The DRM entry is a card whose vendor file names NVIDIA.
pub open spec fn is_nvidia_card(e: DrmEntry) -> bool {
    is_card_name(e.name@) && (e.vendor matches Some(v) && is_nvidia_vendor(v@))
}

/// NVIDIA is present: some DRM card reports the NVIDIA PCI vendor (0x10de), or the
/// NVIDIA kernel driver is loaded.
pub fn nvidia_detected(entries: &Vec<DrmEntry>, driver_loaded: bool) -> (res: bool)
    ensures
        res == (driver_loaded || exists|i: int|
            0 <= i < entries.len() && is_nvidia_card(#[trigger] entries@[i])),
{
    let mut i: usize = 0;
    while i < entries.len()
        invariant
            i <= entries.len(),
            forall|k: int| 0 <= k < i ==> !is_nvidia_card(#[trigger] entries@[k]),
        decreases entries.len() - i,
    {
        let e = &entries[i];
        if is_drm_card_name(e.name.as_str()) {
            match &e.vendor {
                Some(v) => {
                    if is_nvidia_vendor_id(v.as_str()) {
                        proof {
                            assert(is_nvidia_card(entries@[i as int]));
                        }
                        return true;
                    }
                },
                None => {},
            }
        }
        i = i + 1;
    }
    driver_loaded
}

/// What an on/off environment variable says: `1`, `true`, `yes`, `on` mean yes and
/// `0`, `false`, `no`, `off` mean no, in any ASCII case; anything else, or an unset
/// variable, says nothing.
pub open spec fn truthy(value: Option<Seq<char>>) -> Option<bool> {
    match value {
        None => None,
        Some(v) => if eq_ignore_ascii_case(v, "1"@) || eq_ignore_ascii_case(v, "true"@)
            || eq_ignore_ascii_case(v, "yes"@) || eq_ignore_ascii_case(v, "on"@) {
            Some(true)
        } else if eq_ignore_ascii_case(v, "0"@) || eq_ignore_ascii_case(v, "false"@)
            || eq_ignore_ascii_case(v, "no"@) || eq_ignore_ascii_case(v, "off"@) {
            Some(false)
        } else {
            None
        },
    }
}

pub open spec fn str_opt_view(o: Option<&str>) -> Option<Seq<char>> {
    match o {
        Some(s) => Some(s@),
        None => None,
    }
}

/// Reads an on/off override from the value of an environment variable (`None` when
/// the variable is unset).
pub fn env_truthy(value: Option<&str>) -> (res: Option<bool>)
    ensures
        res == truthy(str_opt_view(value)),
{
    match value {
        None => None,
        Some(v) => {
            let c = chars_of(v);
            if eq_ignore_ascii_case_chars(&c, &chars_of("1")) || eq_ignore_ascii_case_chars(
                &c,
                &chars_of("true"),
            ) || eq_ignore_ascii_case_chars(&c, &chars_of("yes")) || eq_ignore_ascii_case_chars(
                &c,
                &chars_of("on"),
            ) {
                Some(true)
            } else if eq_ignore_ascii_case_chars(&c, &chars_of("0")) || eq_ignore_ascii_case_chars(
                &c,
                &chars_of("false"),
            ) || eq_ignore_ascii_case_chars(&c, &chars_of("no")) || eq_ignore_ascii_case_chars(
                &c,
                &chars_of("off"),
            ) {
                Some(false)
            } else {
                None
            }
        },
    }
}

/// Whether the session is X11: `XDG_SESSION_TYPE` decides when it says `x11` or
/// `wayland`; otherwise it is X11 when `WAYLAND_DISPLAY` is unset and `DISPLAY` is set.
pub fn is_x11_session(session_type: Option<&str>, wayland_display_set: bool, display_set: bool) -> (res:
    bool)
    ensures
        res == (match str_opt_view(session_type) {
            Some(t) => if t == "x11"@ {
                true
            } else if t == "wayland"@ {
                false
            } else {
                !wayland_display_set && display_set
            },
            None => !wayland_display_set && display_set,
        }),
{
    match session_type {
        Some(t) => {
            let c = chars_of(t);
            let x11 = chars_of("x11");
            let wl = chars_of("wayland");
            if c.len() == x11.len() && starts_with_chars(&c, &x11) {
                proof {
                    assert(c@ =~= c@.take(x11@.len() as int));
                }
                true
            } else if c.len() == wl.len() && starts_with_chars(&c, &wl) {
                proof {
                    assert(c@ =~= c@.take(wl@.len() as int));
                    assert(c@ != "x11"@);
                }
                false
            } else {
                proof {
                    if c@ == "x11"@ {
                        assert(c@.take(x11@.len() as int) =~= c@);
                    }
                    if c@ == "wayland"@ {
                        assert(c@.take(wl@.len() as int) =~= c@);
                    }
                }
                !wayland_display_set && display_set
            }
        },
        None => !wayland_display_set && display_set,
    }
}

/// Which WebKit environment variables a window sets to `1`.
#[derive(Clone, Copy, PartialEq, Eq, Structural, Debug)]
pub struct WebkitEnvPlan {
    pub set_disable_dmabuf: bool,
    pub set_disable_compositing: bool,
}

/// The WebKit variables to set before the first web process starts. A variable that
/// is already set is left alone; otherwise the matching `LYCAN_WEBKIT_*` override
/// decides, and without one the profile does (for compositing, an X11 session known
/// to run without a compositor also turns it off).
pub fn webkit_environment_plan(
    profile: &WebKitTuningProfile,
    dmabuf_already_set: bool,
    dmabuf_override: Option<bool>,
    compositing_already_set: bool,
    compositing_override: Option<bool>,
    x11_session: bool,
    has_compositor: Option<bool>,
) -> (res: WebkitEnvPlan)
    ensures
        res.set_disable_dmabuf == (!dmabuf_already_set && match dmabuf_override {
            Some(v) => v,
            None => profile.disable_dmabuf,
        }),
        res.set_disable_compositing == (!compositing_already_set && match compositing_override {
            Some(v) => v,
            None => profile.disable_compositing || (x11_session && has_compositor == Some(false)),
        }),
{
    let set_disable_dmabuf = if dmabuf_already_set {
        false
    } else {
        match dmabuf_override {
            Some(v) => v,
            None => profile.disable_dmabuf,
        }
    };
    let set_disable_compositing = if compositing_already_set {
        false
    } else {
        match compositing_override {
            Some(v) => v,
            None => {
                let no_x_compositor = x11_session && match has_compositor {
                    Some(c) => !c,
                    None => false,
                };
                profile.disable_compositing || no_x_compositor
            },
        }
    };
    WebkitEnvPlan { set_disable_dmabuf, set_disable_compositing }
}

/// A system below 4 GiB of RAM (as `MemTotal` in kB, unknown read as 0), for which
/// WebKit keeps tight memory-pressure thresholds.
pub fn is_low_memory(total_kb: Option<u64>) -> (res: bool)
    ensures
        res == (match total_kb {
            Some(t) => 0 < t && t < 4 * 1024 * 1024,
            None => false,
        }),
{
    let t = match total_kb {
        Some(t) => t,
        None => 0,
    };
    t > 0 && t < 4 * 1024 * 1024
}

/// Length of the first line of `s` (up to, not including, the first `\n`).
pub open spec fn line_len(s: Seq<char>) -> nat
    decreases s.len(),
{
    if s.len() == 0 || s[0] == '\n' {
        0
    } else {
        1 + line_len(s.drop_first())
    }
}

pub proof fn lemma_line_len_bound(s: Seq<char>)
    ensures
        line_len(s) <= s.len(),
    decreases s.len(),
{
    if s.len() > 0 && s[0] != '\n' {
        lemma_line_len_bound(s.drop_first());
    }
}

/// The text after `MemTotal:` on the first line of `s` that starts with it.
pub open spec fn mem_total_rest(s: Seq<char>) -> Option<Seq<char>>
    decreases s.len(),
{
    let k = line_len(s);
    let line = s.take(k as int);
    if has_prefix(line, "MemTotal:"@) {
        Some(line.skip("MemTotal:"@.len() as int))
    } else if k >= s.len() {
        None
    } else {
        proof {
            lemma_line_len_bound(s);
        }
        mem_total_rest(s.skip(k + 1 as int))
    }
}

/// The `MemTotal` value of `/proc/meminfo` text: the first word after `MemTotal:`
/// on the first line that starts with it, read as a `u64`.
pub open spec fn mem_total_kb(s: Seq<char>) -> Option<u64> {
    match mem_total_rest(s) {
        Some(rest) => if words(rest).len() > 0 {
            parse_u64(words(rest)[0])
        } else {
            None
        },
        None => None,
    }
}

proof fn lemma_line_len_exact(s: Seq<char>, k: int)
    requires
        0 <= k <= s.len(),
        forall|m: int| 0 <= m < k ==> #[trigger] s[m] != '\n',
        k == s.len() || s[k] == '\n',
    ensures
        line_len(s) == k,
    decreases k,
{
    if k > 0 {
        lemma_line_len_exact(s.drop_first(), k - 1);
    }
}

/// Reads the total memory in kB from the text of `/proc/meminfo`.
pub fn parse_meminfo_total_kb(contents: &str) -> (res: Option<u64>)
    ensures
        res == mem_total_kb(contents@),
{
    let s = chars_of(contents);
    let key = chars_of("MemTotal:");
    let n = s.len();
    let mut start: usize = 0;
    proof {
        assert(s@.skip(0) =~= s@);
    }
    while start <= n
        invariant
            n == s.len(),
            s@ == contents@,
            start <= n + 1,
            key@ == "MemTotal:"@,
            start <= n ==> mem_total_rest(s@) == mem_total_rest(s@.skip(start as int)),
            start > n ==> mem_total_rest(s@) is None,
        decreases n + 1 - start,
    {
        let mut end: usize = start;
        while end < n && s[end] != '\n'
            invariant
                n == s.len(),
                start <= end <= n,
                forall|m: int| start <= m < end ==> #[trigger] s@[m] != '\n',
            decreases n - end,
        {
            end = end + 1;
        }
        let ghost t = s@.skip(start as int);
        proof {
            assert forall|m: int| 0 <= m < end - start implies #[trigger] t[m] != '\n' by {
                assert(t[m] == s@[start + m]);
            }
            if end < n {
                assert(t[end - start] == s@[end as int]);
            }
            lemma_line_len_exact(t, end - start);
        }
        let mut line: Vec<char> = Vec::new();
        let mut k: usize = start;
        while k < end
            invariant
                start <= k <= end <= n,
                n == s.len(),
                line@ == s@.subrange(start as int, k as int),
            decreases end - k,
        {
            line.push(s[k]);
            k = k + 1;
        }
        proof {
            assert(line@ =~= t.take(end - start));
        }
        if starts_with_chars(&line, &key) {
            proof {
                assert(mem_total_rest(t) == Some(line@.skip(key@.len() as int)));
                assert(mem_total_rest(contents@) == Some(line@.skip(key@.len() as int)));
            }
            let (a, b) = next_word(&line, key.len());
            if a == line.len() {
                proof {
                    assert(words(line@.skip(key.len() as int)).len() == 0);
                }
                return None;
            }
            let mut w: Vec<char> = Vec::new();
            let mut q: usize = a;
            while q < b
                invariant
                    a <= q <= b <= line.len(),
                    w@ == line@.subrange(a as int, q as int),
                decreases b - q,
            {
                w.push(line[q]);
                q = q + 1;
            }
            proof {
                assert(words(line@.skip(key.len() as int))[0] == w@);
            }
            return parse_u64_chars(&w);
        }
        if end >= n {
            proof {
                assert(t.len() == n - start);
                assert(!has_prefix(t.take(end - start), "MemTotal:"@));
                assert(mem_total_rest(t) is None);
            }
            return None;
        }
        proof {
            assert(t.skip(end - start + 1) =~= s@.skip(end + 1));
        }
        start = end + 1;
    }
    None
}

}
