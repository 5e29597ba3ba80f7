//! The ad and tracker blocker injected into every PWA window.

use vstd::prelude::*;
use crate::text::{contains_seq, occurs_at, push_str_chars, string_from_chars};

verus! {

/// The script text before the list of blocked domains.
pub const SCRIPT_HEAD: &'static str = r#"
(function() {
    const _bd = new Set(["#;

/// The script text after the list of blocked domains.
pub const SCRIPT_TAIL: &'static str = r#"]);
    const isBlocked = (raw) => {
        try {
            const h = new URL(raw, location.href).hostname;
            for (const d of _bd) { if (h === d || h.endsWith('.' + d)) return true; }
        } catch(_) {}
        return false;
    };

    const _f = window.fetch;
    window.fetch = function(input, init) {
        const u = (typeof input === 'string') ? input : (input && input.url) || '';
        if (isBlocked(u)) return Promise.resolve(new Response('', {status: 200, statusText: 'OK'}));
        return _f.apply(this, arguments);
    };

    const _xo = XMLHttpRequest.prototype.open;
    const _xs = XMLHttpRequest.prototype.send;
    XMLHttpRequest.prototype.open = function(method, url) {
        this._blockedUrl = isBlocked(String(url || ''));
        if (!this._blockedUrl) return _xo.apply(this, arguments);
    };
    XMLHttpRequest.prototype.send = function() {
        if (this._blockedUrl) {
            Object.defineProperty(this, 'status', {value: 200, writable: false});
            Object.defineProperty(this, 'readyState', {value: 4, writable: false});
            Object.defineProperty(this, 'responseText', {value: '', writable: false});
            Object.defineProperty(this, 'response', {value: '', writable: false});
            if (typeof this.onreadystatechange === 'function') {
                try { this.onreadystatechange(new Event('readystatechange')); } catch(_) {}
            }
            if (typeof this.onload === 'function') {
                try { this.onload(new Event('load')); } catch(_) {}
            }
            return;
        }
        return _xs.apply(this, arguments);
    };

    if (navigator.sendBeacon) {
        const _sb = navigator.sendBeacon.bind(navigator);
        navigator.sendBeacon = function(url) {
            if (isBlocked(String(url))) return true;
            return _sb.apply(this, arguments);
        };
    }
})();
"#;

/// The domains whose requests the injected script answers with an empty response
/// (a host is blocked when it equals one of them or ends with `.` and one of them).
/// The blocker promises 35 or more tracker domains; the last five (adform.net,
/// pubmatic.com, rubiconproject.com, casalemedia.com, moatads.com, ad exchanges and
/// ad measurement hosts) bring the list to that count.
pub open spec fn blocked_domains_spec() -> Seq<Seq<char>> {
    seq![
        "doubleclick.net"@,
        "googlesyndication.com"@,
        "googleadservices.com"@,
        "google-analytics.com"@,
        "googletagmanager.com"@,
        "googletagservices.com"@,
        "adservice.google.com"@,
        "pagead2.googlesyndication.com"@,
        "connect.facebook.net"@,
        "analytics.facebook.com"@,
        "ads-twitter.com"@,
        "static.ads-twitter.com"@,
        "ads.linkedin.com"@,
        "snap.licdn.com"@,
        "adnxs.com"@,
        "adsrvr.org"@,
        "amazon-adsystem.com"@,
        "criteo.com"@,
        "criteo.net"@,
        "outbrain.com"@,
        "taboola.com"@,
        "scorecardresearch.com"@,
        "quantserve.com"@,
        "hotjar.com"@,
        "fullstory.com"@,
        "mixpanel.com"@,
        "segment.io"@,
        "segment.com"@,
        "sentry-cdn.com"@,
        "bat.bing.com"@,
        "clarity.ms"@,
        "adform.net"@,
        "pubmatic.com"@,
        "rubiconproject.com"@,
        "casalemedia.com"@,
        "moatads.com"@,
    ]
}

/// The blocked domains, in the order the script lists them.
pub fn blocked_domains() -> (res: Vec<&'static str>)
    ensures
        res.len() == blocked_domains_spec().len(),
        forall|i: int| 0 <= i < res.len() ==> (#[trigger] res@[i])@ == blocked_domains_spec()[i],
{
    let mut v: Vec<&'static str> = Vec::new();
    v.push("doubleclick.net");
    v.push("googlesyndication.com");
    v.push("googleadservices.com");
    v.push("google-analytics.com");
    v.push("googletagmanager.com");
    v.push("googletagservices.com");
    v.push("adservice.google.com");
    v.push("pagead2.googlesyndication.com");
    v.push("connect.facebook.net");
    v.push("analytics.facebook.com");
    v.push("ads-twitter.com");
    v.push("static.ads-twitter.com");
    v.push("ads.linkedin.com");
    v.push("snap.licdn.com");
    v.push("adnxs.com");
    v.push("adsrvr.org");
    v.push("amazon-adsystem.com");
    v.push("criteo.com");
    v.push("criteo.net");
    v.push("outbrain.com");
    v.push("taboola.com");
    v.push("scorecardresearch.com");
    v.push("quantserve.com");
    v.push("hotjar.com");
    v.push("fullstory.com");
    v.push("mixpanel.com");
    v.push("segment.io");
    v.push("segment.com");
    v.push("sentry-cdn.com");
    v.push("bat.bing.com");
    v.push("clarity.ms");
    v.push("adform.net");
    v.push("pubmatic.com");
    v.push("rubiconproject.com");
    v.push("casalemedia.com");
    v.push("moatads.com");
    v
}

/// A domain as a JavaScript string literal: `'domain'`.
pub open spec fn quoted(d: Seq<char>) -> Seq<char> {
    seq!['\''] + d + seq!['\'']
}

/// The quoted domains separated by commas, the body of the script's `new Set([...])`.
pub open spec fn quoted_list(ds: Seq<Seq<char>>) -> Seq<char>
    decreases ds.len(),
{
    if ds.len() == 0 {
        Seq::empty()
    } else if ds.len() == 1 {
        quoted(ds[0])
    } else {
        quoted_list(ds.drop_last()) + seq![','] + quoted(ds.last())
    }
}

/// The whole injected script.
pub open spec fn script_text() -> Seq<char> {
    SCRIPT_HEAD@ + quoted_list(blocked_domains_spec()) + SCRIPT_TAIL@
}

/// The JavaScript that blocks requests (through `fetch`, `XMLHttpRequest` and
/// `navigator.sendBeacon`) to the blocked domains and their subdomains.
pub fn script() -> (res: String)
    ensures
        res@ == script_text(),
{
    let ds = blocked_domains();
    let ghost spec_ds = blocked_domains_spec();
    let mut out: Vec<char> = Vec::new();
    push_str_chars(&mut out, SCRIPT_HEAD);
    let mut i: usize = 0;
    while i < ds.len()
        invariant
            ds.len() == spec_ds.len(),
            spec_ds == blocked_domains_spec(),
            forall|k: int| 0 <= k < ds.len() ==> (#[trigger] ds@[k])@ == spec_ds[k],
            i <= ds.len(),
            out@ == SCRIPT_HEAD@ + quoted_list(spec_ds.take(i as int)),
        decreases ds.len() - i,
    {
        let ghost before = out@;
        if i > 0 {
            out.push(',');
        }
        out.push('\'');
        push_str_chars(&mut out, ds[i]);
        out.push('\'');
        proof {
            let t = spec_ds.take(i + 1);
            assert(t.drop_last() =~= spec_ds.take(i as int));
            assert(t.last() == spec_ds[i as int]);
            if i == 0 {
                assert(spec_ds.take(0) =~= Seq::<Seq<char>>::empty());
                assert(out@ =~= SCRIPT_HEAD@ + quoted(spec_ds[0]));
            } else {
                assert(out@ =~= SCRIPT_HEAD@ + (quoted_list(spec_ds.take(i as int)) + seq![',']
                    + quoted(spec_ds[i as int])));
            }
        }
        i = i + 1;
    }
    push_str_chars(&mut out, SCRIPT_TAIL);
    proof {
        assert(spec_ds.take(ds.len() as int) =~= spec_ds);
    }
    string_from_chars(&out)
}

proof fn lemma_quoted_list_contains(ds: Seq<Seq<char>>, k: int) -> (off: int)
    requires
        0 <= k < ds.len(),
    ensures
        occurs_at(quoted_list(ds), quoted(ds[k]), off),
    decreases ds.len(),
{
    let l = quoted_list(ds);
    let q = quoted(ds[k]);
    if ds.len() == 1 {
        assert(l.subrange(0, q.len() as int) =~= q);
        0
    } else if k == ds.len() - 1 {
        let front = quoted_list(ds.drop_last()) + seq![','];
        assert(l.subrange(front.len() as int, (front.len() + q.len()) as int) =~= q);
        front.len() as int
    } else {
        let o = lemma_quoted_list_contains(ds.drop_last(), k);
        let inner = quoted_list(ds.drop_last());
        assert(ds.drop_last()[k] == ds[k]);
        assert(l.subrange(o, o + q.len()) =~= inner.subrange(o, o + q.len()));
        o
    }
}

/// The script names every blocked domain as a quoted string.
pub proof fn law_script_lists_every_domain(k: int)
    requires
        0 <= k < blocked_domains_spec().len(),
    ensures
        contains_seq(script_text(), quoted(blocked_domains_spec()[k])),
{
    let ds = blocked_domains_spec();
    let o = lemma_quoted_list_contains(ds, k);
    let q = quoted(ds[k]);
    let h = SCRIPT_HEAD@;
    let l = quoted_list(ds);
    let s = script_text();
    assert(s.subrange(h.len() + o, h.len() + o + q.len()) =~= l.subrange(o, o + q.len()));
    assert(occurs_at(s, q, h.len() + o));
}


/// A character of a DNS host name as the script compares it: a lowercase ASCII
/// letter, a digit, `-` or `.`.
pub open spec fn is_host_char(c: char) -> bool {
    ('a' <= c && c <= 'z') || ('0' <= c && c <= '9') || c == '-' || c == '.'
}

/// A bare host name: non-empty, only host characters, and no `.` at either end (no
/// scheme, port or path), so that the script's test `h === d || h.endsWith('.' + d)`
/// can match it against the host name of a request.
pub open spec fn is_bare_host(d: Seq<char>) -> bool {
    &&& d.len() > 0
    &&& forall|i: int| 0 <= i < d.len() ==> is_host_char(#[trigger] d[i])
    &&& d[0] != '.'
    &&& d.last() != '.'
}

/// The place of a host in the blocklist, told by its length and its fourth and
/// ninth characters, which differ between any two listed hosts; `-1` for other text.
pub open spec fn listed_host_rank(d: Seq<char>) -> int {
    if d.len() == 15 && d[3] == 'b' && d[8] == 'i' {
        0
    } else if d.len() == 21 && d[3] == 'g' && d[8] == 'n' {
        1
    } else if d.len() == 20 && d[3] == 'g' && d[8] == 's' {
        2
    } else if d.len() == 20 && d[3] == 'g' && d[8] == 'n' {
        3
    } else if d.len() == 20 && d[3] == 'g' && d[8] == 'g' {
        4
    } else if d.len() == 21 && d[3] == 'g' && d[8] == 'g' {
        5
    } else if d.len() == 20 && d[3] == 'e' && d[8] == 'e' {
        6
    } else if d.len() == 29 && d[3] == 'e' && d[8] == 'g' {
        7
    } else if d.len() == 20 && d[3] == 'n' && d[8] == 'f' {
        8
    } else if d.len() == 22 && d[3] == 'l' && d[8] == 's' {
        9
    } else if d.len() == 15 && d[3] == '-' && d[8] == 't' {
        10
    } else if d.len() == 22 && d[3] == 't' && d[8] == 'd' {
        11
    } else if d.len() == 16 && d[3] == '.' && d[8] == 'e' {
        12
    } else if d.len() == 14 && d[3] == 'p' && d[8] == 'd' {
        13
    } else if d.len() == 9 && d[3] == 'x' && d[8] == 'm' {
        14
    } else if d.len() == 10 && d[3] == 'r' && d[8] == 'r' {
        15
    } else if d.len() == 19 && d[3] == 'z' && d[8] == 'd' {
        16
    } else if d.len() == 10 && d[3] == 't' && d[8] == 'o' {
        17
    } else if d.len() == 10 && d[3] == 't' && d[8] == 'e' {
        18
    } else if d.len() == 12 && d[3] == 'b' && d[8] == '.' {
        19
    } else if d.len() == 11 && d[3] == 'o' && d[8] == 'c' {
        20
    } else if d.len() == 21 && d[3] == 'r' && d[8] == 'd' {
        21
    } else if d.len() == 14 && d[3] == 'n' && d[8] == 'v' {
        22
    } else if d.len() == 10 && d[3] == 'j' && d[8] == 'o' {
        23
    } else if d.len() == 13 && d[3] == 'l' && d[8] == 'y' {
        24
    } else if d.len() == 12 && d[3] == 'p' && d[8] == '.' {
        25
    } else if d.len() == 10 && d[3] == 'm' && d[8] == 'i' {
        26
    } else if d.len() == 11 && d[3] == 'm' && d[8] == 'c' {
        27
    } else if d.len() == 14 && d[3] == 't' && d[8] == 'd' {
        28
    } else if d.len() == 12 && d[3] == '.' && d[8] == '.' {
        29
    } else if d.len() == 10 && d[3] == 'r' && d[8] == 'm' {
        30
    } else if d.len() == 10 && d[3] == 'o' && d[8] == 'e' {
        31
    } else if d.len() == 12 && d[3] == 'm' && d[8] == '.' {
        32
    } else if d.len() == 18 && d[3] == 'i' && d[8] == 'r' {
        33
    } else if d.len() == 15 && d[3] == 'a' && d[8] == 'd' {
        34
    } else if d.len() == 11 && d[3] == 't' && d[8] == 'c' {
        35
    } else {
        -1
    }
}

/// Each host of `s` from position `start` on has the rank of its position.
pub open spec fn ranked_from(s: Seq<Seq<char>>, start: int) -> bool
    decreases s.len(),
{
    s.len() == 0 || (listed_host_rank(s[0]) == start && ranked_from(s.drop_first(), start + 1))
}

proof fn lemma_ranked_from(s: Seq<Seq<char>>, start: int)
    requires
        ranked_from(s, start),
    ensures
        forall|i: int| 0 <= i < s.len() ==> listed_host_rank(#[trigger] s[i]) == start + i,
    decreases s.len(),
{
    if s.len() > 0 {
        lemma_ranked_from(s.drop_first(), start + 1);
        assert forall|i: int| 0 <= i < s.len() implies listed_host_rank(#[trigger] s[i]) == start + i by {
            if i > 0 {
                assert(s[i] == s.drop_first()[i - 1]);
            }
        }
    }
}

/// Hosts with different ranks differ, so a sequence ranked by position holds no host twice.
proof fn lemma_ranked_no_duplicates(s: Seq<Seq<char>>)
    requires
        ranked_from(s, 0),
    ensures
        s.no_duplicates(),
{
    lemma_ranked_from(s, 0);
    assert forall|i: int, j: int| 0 <= i < s.len() && 0 <= j < s.len() && i != j implies s[i] != s[j] by {
        assert(listed_host_rank(s[i]) == i);
        assert(listed_host_rank(s[j]) == j);
    }
}

/// The blocker covers at least 35 distinct domains, each a bare host name.
pub proof fn law_blocklist_covers_documented_hosts()
    ensures
        blocked_domains_spec().len() >= 35,
        blocked_domains_spec().no_duplicates(),
        forall|i: int|
            0 <= i < blocked_domains_spec().len() ==> is_bare_host(
                #[trigger] blocked_domains_spec()[i],
            ),
{
    reveal_strlit("doubleclick.net");
    reveal_strlit("googlesyndication.com");
    reveal_strlit("googleadservices.com");
    reveal_strlit("google-analytics.com");
    reveal_strlit("googletagmanager.com");
    reveal_strlit("googletagservices.com");
    reveal_strlit("adservice.google.com");
    reveal_strlit("pagead2.googlesyndication.com");
    reveal_strlit("connect.facebook.net");
    reveal_strlit("analytics.facebook.com");
    reveal_strlit("ads-twitter.com");
    reveal_strlit("static.ads-twitter.com");
    reveal_strlit("ads.linkedin.com");
    reveal_strlit("snap.licdn.com");
    reveal_strlit("adnxs.com");
    reveal_strlit("adsrvr.org");
    reveal_strlit("amazon-adsystem.com");
    reveal_strlit("criteo.com");
    reveal_strlit("criteo.net");
    reveal_strlit("outbrain.com");
    reveal_strlit("taboola.com");
    reveal_strlit("scorecardresearch.com");
    reveal_strlit("quantserve.com");
    reveal_strlit("hotjar.com");
    reveal_strlit("fullstory.com");
    reveal_strlit("mixpanel.com");
    reveal_strlit("segment.io");
    reveal_strlit("segment.com");
    reveal_strlit("sentry-cdn.com");
    reveal_strlit("bat.bing.com");
    reveal_strlit("clarity.ms");
    reveal_strlit("adform.net");
    reveal_strlit("pubmatic.com");
    reveal_strlit("rubiconproject.com");
    reveal_strlit("casalemedia.com");
    reveal_strlit("moatads.com");
    let ds = blocked_domains_spec();
    assert(is_bare_host(ds[0]));
    assert(is_bare_host(ds[1]));
    assert(is_bare_host(ds[2]));
    assert(is_bare_host(ds[3]));
    assert(is_bare_host(ds[4]));
    assert(is_bare_host(ds[5]));
    assert(is_bare_host(ds[6]));
    assert(is_bare_host(ds[7]));
    assert(is_bare_host(ds[8]));
    assert(is_bare_host(ds[9]));
    assert(is_bare_host(ds[10]));
    assert(is_bare_host(ds[11]));
    assert(is_bare_host(ds[12]));
    assert(is_bare_host(ds[13]));
    assert(is_bare_host(ds[14]));
    assert(is_bare_host(ds[15]));
    assert(is_bare_host(ds[16]));
    assert(is_bare_host(ds[17]));
    assert(is_bare_host(ds[18]));
    assert(is_bare_host(ds[19]));
    assert(is_bare_host(ds[20]));
    assert(is_bare_host(ds[21]));
    assert(is_bare_host(ds[22]));
    assert(is_bare_host(ds[23]));
    assert(is_bare_host(ds[24]));
    assert(is_bare_host(ds[25]));
    assert(is_bare_host(ds[26]));
    assert(is_bare_host(ds[27]));
    assert(is_bare_host(ds[28]));
    assert(is_bare_host(ds[29]));
    assert(is_bare_host(ds[30]));
    assert(is_bare_host(ds[31]));
    assert(is_bare_host(ds[32]));
    assert(is_bare_host(ds[33]));
    assert(is_bare_host(ds[34]));
    assert(is_bare_host(ds[35]));
    assert(ranked_from(ds, 0)) by {
        reveal_with_fuel(ranked_from, 37);
    }
    lemma_ranked_no_duplicates(ds);
}

}
