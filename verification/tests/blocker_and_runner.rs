use lycan::blocker::{blocked_domains, script};
use lycan::runner::build_init_script;

#[test]
fn script_lists_every_domain_quoted() {
    let s = script();
    let domains = blocked_domains();
    assert_eq!(domains.len(), 36);
    for d in domains {
        assert!(s.contains(&format!("'{}'", d)), "{}", d);
    }
    assert!(s.contains("const _bd = new Set(['doubleclick.net','googlesyndication.com',"));
    assert!(s.contains("'bat.bing.com','clarity.ms','adform.net','pubmatic.com'"));
    assert!(s.contains("'moatads.com']);"));
}

#[test]
fn script_wraps_the_list_in_the_blocker() {
    let s = script();
    assert!(s.starts_with("\n(function() {\n    const _bd = new Set(["));
    assert!(s.ends_with("})();\n"));
    assert!(s.contains("window.fetch = function(input, init) {"));
    assert!(s.contains("navigator.sendBeacon = function(url) {"));
    assert!(!s.contains("{{"));
}

#[test]
fn init_script_without_probe_is_the_blocker() {
    assert_eq!(build_init_script(""), script());
}

#[test]
fn init_script_appends_probe_after_newline() {
    assert_eq!(build_init_script("probe();"), format!("{}\nprobe();", script()));
}

const EXPECTED_DOMAINS: &[&str] = &[
    "doubleclick.net",
    "googlesyndication.com",
    "googleadservices.com",
    "google-analytics.com",
    "googletagmanager.com",
    "googletagservices.com",
    "adservice.google.com",
    "pagead2.googlesyndication.com",
    "connect.facebook.net",
    "analytics.facebook.com",
    "ads-twitter.com",
    "static.ads-twitter.com",
    "ads.linkedin.com",
    "snap.licdn.com",
    "adnxs.com",
    "adsrvr.org",
    "amazon-adsystem.com",
    "criteo.com",
    "criteo.net",
    "outbrain.com",
    "taboola.com",
    "scorecardresearch.com",
    "quantserve.com",
    "hotjar.com",
    "fullstory.com",
    "mixpanel.com",
    "segment.io",
    "segment.com",
    "sentry-cdn.com",
    "bat.bing.com",
    "clarity.ms",
    "adform.net",
    "pubmatic.com",
    "rubiconproject.com",
    "casalemedia.com",
    "moatads.com",
];

fn expected_script() -> String {
    let domain_list: String = EXPECTED_DOMAINS
        .iter()
        .map(|d| format!("'{d}'"))
        .collect::<Vec<_>>()
        .join(",");

    format!(
        r#"
(function() {{
    const _bd = new Set([{domain_list}]);
    const isBlocked = (raw) => {{
        try {{
            const h = new URL(raw, location.href).hostname;
            for (const d of _bd) {{ if (h === d || h.endsWith('.' + d)) return true; }}
        }} catch(_) {{}}
        return false;
    }};

    const _f = window.fetch;
    window.fetch = function(input, init) {{
        const u = (typeof input === 'string') ? input : (input && input.url) || '';
        if (isBlocked(u)) return Promise.resolve(new Response('', {{status: 200, statusText: 'OK'}}));
        return _f.apply(this, arguments);
    }};

    const _xo = XMLHttpRequest.prototype.open;
    const _xs = XMLHttpRequest.prototype.send;
    XMLHttpRequest.prototype.open = function(method, url) {{
        this._blockedUrl = isBlocked(String(url || ''));
        if (!this._blockedUrl) return _xo.apply(this, arguments);
    }};
    XMLHttpRequest.prototype.send = function() {{
        if (this._blockedUrl) {{
            Object.defineProperty(this, 'status', {{value: 200, writable: false}});
            Object.defineProperty(this, 'readyState', {{value: 4, writable: false}});
            Object.defineProperty(this, 'responseText', {{value: '', writable: false}});
            Object.defineProperty(this, 'response', {{value: '', writable: false}});
            if (typeof this.onreadystatechange === 'function') {{
                try {{ this.onreadystatechange(new Event('readystatechange')); }} catch(_) {{}}
            }}
            if (typeof this.onload === 'function') {{
                try {{ this.onload(new Event('load')); }} catch(_) {{}}
            }}
            return;
        }}
        return _xs.apply(this, arguments);
    }};

    if (navigator.sendBeacon) {{
        const _sb = navigator.sendBeacon.bind(navigator);
        navigator.sendBeacon = function(url) {{
            if (isBlocked(String(url))) return true;
            return _sb.apply(this, arguments);
        }};
    }}
}})();
"#
    )
}

#[test]
fn script_is_the_blocker_template_over_the_domain_list() {
    assert_eq!(script(), expected_script());
    let domains: Vec<&str> = blocked_domains();
    assert_eq!(domains, EXPECTED_DOMAINS.to_vec());
}

#[test]
fn blocklist_has_at_least_35_distinct_bare_hosts() {
    let domains = blocked_domains();
    assert!(domains.len() >= 35);
    let mut seen = std::collections::HashSet::new();
    for d in &domains {
        assert!(seen.insert(*d), "duplicate {}", d);
        assert!(!d.is_empty() && !d.starts_with('.') && !d.ends_with('.'), "{}", d);
        assert!(d.chars().all(|c| c.is_ascii_lowercase() || c.is_ascii_digit() || c == '-' || c == '.'), "{}", d);
    }
}
