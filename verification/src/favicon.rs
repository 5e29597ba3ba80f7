//! Choosing a site's icon: the `<link>` tags of its page, their declared sizes,
//! and how a link resolves against the page URL.

use vstd::prelude::*;
use vstd::slice::slice_to_vec;
use crate::numparse::{parse_i32, parse_i32_chars};
use crate::text::{chars_of, lowercase, next_word, string_from_chars, to_lowercase, words};
use crate::weburl::{
    join_url, opt_view, parse_url, url_join_serialization, url_serialization, url_with_path,
    url_with_path_of,
};

verus! {

pub open spec fn x_free(l: Seq<char>) -> bool {
    forall|i: int| 0 <= i < l.len() ==> #[trigger] l[i] != 'x'
}

/// `l` holds exactly one `x`, at position `k`.
pub open spec fn single_x_at(l: Seq<char>, k: int) -> bool {
    0 <= k < l.len() && l[k] == 'x' && x_free(l.take(k)) && x_free(l.skip(k + 1))
}

/// The width that one lowercased `sizes` token declares: a token of the form
/// `<w>x<h>` (exactly one `x`) gives `<w>` read as an `i32`; any other token, nothing.
pub open spec fn token_width(l: Seq<char>) -> Option<i32> {
    if exists|k: int| single_x_at(l, k) {
        parse_i32(l.take(choose|k: int| single_x_at(l, k)))
    } else {
        None
    }
}

/// The larger of two optional values (`None` only when both are).
pub open spec fn max_opt(a: Option<i32>, b: Option<i32>) -> Option<i32> {
    match (a, b) {
        (Some(x), Some(y)) => Some(if x >= y {
            x
        } else {
            y
        }),
        (Some(x), None) => Some(x),
        (None, y) => y,
    }
}

/// The largest of the values present in `vals`.
pub open spec fn max_present(vals: Seq<Option<i32>>) -> Option<i32>
    decreases vals.len(),
{
    if vals.len() == 0 {
        None
    } else {
        max_opt(max_present(vals.drop_last()), vals.last())
    }
}

/// The largest width declared by a `sizes` attribute: over its whitespace-separated
/// tokens, each lowercased, the largest `token_width`.
pub open spec fn largest_size(sizes: Seq<char>) -> Option<i32> {
    max_present(words(sizes).map_values(|t: Seq<char>| token_width(lowercase(t))))
}

/// The width of a lowercased token, as `token_width` gives it.
pub fn width_of_token(l: &Vec<char>) -> (res: Option<i32>)
    ensures
        res == token_width(l@),
{
    let n = l.len();
    let mut k: usize = 0;
    while k < n && l[k] != 'x'
        invariant
            n == l.len(),
            k <= n,
            forall|m: int| 0 <= m < k ==> #[trigger] l@[m] != 'x',
        decreases n - k,
    {
        k = k + 1;
    }
    if k == n {
        proof {
            assert forall|q: int| !single_x_at(l@, q) by {
                if 0 <= q < l@.len() {
                    assert(l@[q] != 'x');
                }
            }
        }
        return None;
    }
    let mut j: usize = k + 1;
    while j < n
        invariant
            n == l.len(),
            k < j <= n,
            l@[k as int] == 'x',
            forall|m: int| 0 <= m < k ==> #[trigger] l@[m] != 'x',
            forall|m: int| k < m < j ==> #[trigger] l@[m] != 'x',
        decreases n - j,
    {
        if l[j] == 'x' {
            proof {
                assert forall|q: int| !single_x_at(l@, q) by {
                    if single_x_at(l@, q) {
                        if q < k {
                            assert(l@[q] != 'x');
                        } else if q == k {
                            assert(l@.skip(k + 1)[j - k - 1] == 'x');
                        } else {
                            assert(l@.take(q)[k as int] == 'x');
                        }
                    }
                }
            }
            return None;
        }
        j = j + 1;
    }
    let mut w: Vec<char> = Vec::new();
    let mut q: usize = 0;
    while q < k
        invariant
            k < n,
            n == l.len(),
            q <= k,
            w@ == l@.take(q as int),
        decreases k - q,
    {
        w.push(l[q]);
        proof {
            assert(l@.take(q + 1) =~= l@.take(q as int).push(l@[q as int]));
        }
        q = q + 1;
    }
    proof {
        assert forall|m: int| 0 <= m < l@.take(k as int).len() implies #[trigger] l@.take(
            k as int,
        )[m] != 'x' by {
            assert(l@.take(k as int)[m] == l@[m]);
        }
        assert forall|m: int| 0 <= m < l@.skip(k + 1).len() implies #[trigger] l@.skip(k + 1)[m]
            != 'x' by {
            assert(l@.skip(k + 1)[m] == l@[k + 1 + m]);
        }
        assert(single_x_at(l@, k as int));
        let c = choose|c: int| single_x_at(l@, c);
        if c < k {
            assert(l@[c] != 'x');
        } else if c > k {
            assert(l@.take(c)[k as int] == 'x');
        }
    }
    parse_i32_chars(&w)
}

/// The largest width declared by the `sizes` attribute value `sizes`.
pub fn parse_largest_size(sizes: &str) -> (res: Option<i32>)
    ensures
        res == largest_size(sizes@),
{
    let s = chars_of(sizes);
    let n = s.len();
    let ghost f = |t: Seq<char>| token_width(lowercase(t));
    let ghost mut done: Seq<Seq<char>> = Seq::empty();
    let mut best: Option<i32> = None;
    let mut i: usize = 0;
    proof {
        assert(s@.skip(0) =~= s@);
        assert(done + words(s@.skip(0)) =~= words(s@));
    }
    while i < n
        invariant
            n == s.len(),
            s@ == sizes@,
            i <= n,
            f == (|t: Seq<char>| token_width(lowercase(t))),
            words(s@) == done + words(s@.skip(i as int)),
            best == max_present(done.map_values(f)),
        decreases n - i,
    {
        let (a, b) = next_word(&s, i);
        if a == n {
            i = n;
        } else {
            let mut w: Vec<char> = Vec::new();
            let mut q: usize = a;
            while q < b
                invariant
                    a <= q <= b <= n,
                    n == s.len(),
                    w@ == s@.subrange(a as int, q as int),
                decreases b - q,
            {
                w.push(s[q]);
                q = q + 1;
            }
            let word = string_from_chars(&w);
            let lowered = to_lowercase(word.as_str());
            let lc = chars_of(lowered.as_str());
            let width = width_of_token(&lc);
            proof {
                let d2 = done.push(w@);
                assert(d2.map_values(f) =~= done.map_values(f).push(f(w@)));
                assert(d2.map_values(f).drop_last() =~= done.map_values(f));
                assert(words(s@) =~= d2 + words(s@.skip(b as int)));
                done = d2;
            }
            best = match (best, width) {
                (Some(x), Some(y)) => Some(
                    if x >= y {
                        x
                    } else {
                        y
                    },
                ),
                (Some(x), None) => Some(x),
                (None, y) => y,
            };
            i = b;
        }
    }
    proof {
        assert(s@.skip(n as int).len() == 0);
        assert(words(s@.skip(n as int)).len() == 0);
        assert(done =~= words(s@));
    }
    best
}

/// Where a link `href` on the page at `base` points: `href` itself when it is an
/// absolute URL, else `href` resolved against `base`, else `href` as written.
pub open spec fn resolved_url(base: Seq<char>, href: Seq<char>) -> Seq<char> {
    match url_serialization(href) {
        Some(a) => a,
        None => match url_join_serialization(base, href) {
            Some(j) => j,
            None => href,
        },
    }
}

pub fn resolve_url(base: &str, href: &str) -> (res: String)
    ensures
        res@ == resolved_url(base@, href@),
{
    match parse_url(href) {
        Some(a) => a,
        None => match join_url(base, href) {
            Some(j) => j,
            None => string_from_chars(&chars_of(href)),
        },
    }
}

/// The `href` and `sizes` attributes of one element that a selector matched.
pub struct LinkAttrs {
    pub href: Option<String>,
    pub sizes: Option<String>,
}

pub open spec fn link_view(l: LinkAttrs) -> (Option<Seq<char>>, Option<Seq<char>>) {
    (opt_view(l.href), opt_view(l.sizes))
}

/// The `(href, sizes)` attributes of the elements of the HTML document `html` that the
/// CSS selector `selector` matches, in document order, as `scraper` finds them; empty
/// when the selector does not parse.
pub uninterp spec fn selected_links(html: Seq<char>, selector: Seq<char>) -> Seq<
    (Option<Seq<char>>, Option<Seq<char>>),
>;

/// Parses `html` with `scraper::Html::parse_document` and `selector` with
/// `scraper::Selector::parse`, and lists the `href` and `sizes` attributes of the
/// matched elements (`Html::select`, `Element::attr`). The contract names the result
/// (`selected_links`) as a function of the two texts.
#[verifier::external_body]
fn select_links(html: &str, selector: &str) -> (res: Vec<LinkAttrs>)
    ensures
        res@.map_values(|l: LinkAttrs| link_view(l)) == selected_links(html@, selector@),
{
    let document = scraper::Html::parse_document(html);
    match scraper::Selector::parse(selector) {
        Ok(sel) => document.select(&sel).map(|e| LinkAttrs {
            href: e.value().attr("href").map(String::from),
            sizes: e.value().attr("sizes").map(String::from),
        }).collect(),
        Err(_) => Vec::new(),
    }
}

/// The declared width of a link: the largest width of its `sizes` attribute, 0 when
/// there is none.
pub open spec fn declared_width(sizes: Option<Seq<char>>) -> i32 {
    match sizes {
        Some(s) => match largest_size(s) {
            Some(v) => v,
            None => 0,
        },
        None => 0,
    }
}

/// The candidate icons among `links`: for each link with an `href`, its declared
/// width and its resolved URL, in document order.
pub open spec fn candidates(base: Seq<char>, links: Seq<(Option<Seq<char>>, Option<Seq<char>>)>) -> Seq<
    (i32, Seq<char>),
>
    decreases links.len(),
{
    if links.len() == 0 {
        Seq::empty()
    } else {
        let rest = candidates(base, links.drop_last());
        match links.last().0 {
            Some(h) => rest.push((declared_width(links.last().1), resolved_url(base, h))),
            None => rest,
        }
    }
}

/// `i` is the first candidate of the largest width.
pub open spec fn is_first_widest(c: Seq<(i32, Seq<char>)>, i: int) -> bool {
    &&& 0 <= i < c.len()
    &&& forall|j: int| 0 <= j < i ==> #[trigger] c[j].0 < c[i].0
    &&& forall|j: int| 0 <= j < c.len() ==> #[trigger] c[j].0 <= c[i].0
}

/// The URL of the first widest candidate.
pub open spec fn widest(c: Seq<(i32, Seq<char>)>) -> Option<Seq<char>> {
    if c.len() == 0 {
        None
    } else {
        Some(c[choose|i: int| is_first_widest(c, i)].1)
    }
}

/// The icon selectors, most preferred first.
pub open spec fn icon_selectors() -> Seq<Seq<char>> {
    seq![
        "link[rel='apple-touch-icon']"@,
        "link[rel='icon'][sizes]"@,
        "link[rel='icon']"@,
        "link[rel='shortcut icon']"@,
    ]
}

/// The icon of the page: for the first selector that matches a link with an `href`,
/// the widest of its candidates (the first one on a tie).
pub open spec fn best_icon_among(base: Seq<char>, html: Seq<char>, sels: Seq<Seq<char>>) -> Option<
    Seq<char>,
>
    decreases sels.len(),
{
    if sels.len() == 0 {
        None
    } else {
        let c = candidates(base, selected_links(html, sels[0]));
        if c.len() > 0 {
            widest(c)
        } else {
            best_icon_among(base, html, sels.drop_first())
        }
    }
}

proof fn lemma_first_widest_unique(c: Seq<(i32, Seq<char>)>, i: int, j: int)
    requires
        is_first_widest(c, i),
        is_first_widest(c, j),
    ensures
        i == j,
{
    if i < j {
        assert(c[i].0 < c[j].0);
        assert(c[i].0 <= c[j].0 && c[j].0 <= c[i].0);
    } else if j < i {
        assert(c[j].0 < c[i].0);
        assert(c[i].0 <= c[j].0);
    }
}

proof fn lemma_candidates_origin(base: Seq<char>, links: Seq<(Option<Seq<char>>, Option<Seq<char>>)>)
    ensures
        forall|ci: int|
            0 <= ci < candidates(base, links).len() ==> exists|k: int|
                0 <= k < links.len() && (#[trigger] links[k]).0 is Some && #[trigger] candidates(
                    base,
                    links,
                )[ci] == (declared_width(links[k].1), resolved_url(base, links[k].0.unwrap())),
        forall|k: int|
            0 <= k < links.len() && (#[trigger] links[k]).0 is Some ==> exists|ci: int|
                0 <= ci < candidates(base, links).len() && #[trigger] candidates(base, links)[ci] == (
                declared_width(links[k].1),
                resolved_url(base, links[k].0.unwrap()),
            ),
    decreases links.len(),
{
    if links.len() == 0 {
        assert(candidates(base, links).len() == 0);
    } else {
        let init = links.drop_last();
        lemma_candidates_origin(base, init);
        let r = candidates(base, init);
        let c = candidates(base, links);
        let n = links.len() - 1;
        assert forall|ci: int| 0 <= ci < c.len() implies exists|k: int|
            0 <= k < links.len() && (#[trigger] links[k]).0 is Some && #[trigger] c[ci] == (
                declared_width(links[k].1),
                resolved_url(base, links[k].0.unwrap()),
            ) by {
            if ci < r.len() {
                assert(c[ci] == r[ci]);
                let k = choose|k: int|
                    0 <= k < init.len() && (#[trigger] init[k]).0 is Some && r[ci] == (
                        declared_width(init[k].1),
                        resolved_url(base, init[k].0.unwrap()),
                    );
                assert(links[k] == init[k]);
            } else {
                assert(links[n] == links.last());
                if links.last().0 is None {
                    assert(c == r);
                }
                assert(links[n].0 is Some);
                assert(c == r.push((declared_width(links[n].1), resolved_url(base, links[n].0.unwrap()))));
                assert(c[ci] == (declared_width(links[n].1), resolved_url(base, links[n].0.unwrap())));
            }
        }
        assert forall|k: int| 0 <= k < links.len() && (#[trigger] links[k]).0 is Some implies exists|ci: int|
            0 <= ci < c.len() && #[trigger] c[ci] == (
                declared_width(links[k].1),
                resolved_url(base, links[k].0.unwrap()),
            ) by {
            if k < n {
                assert(links[k] == init[k]);
                let ci = choose|ci: int|
                    0 <= ci < r.len() && #[trigger] r[ci] == (
                        declared_width(init[k].1),
                        resolved_url(base, init[k].0.unwrap()),
                    );
                assert(c[ci] == r[ci]);
            } else {
                assert(links[k] == links.last());
                assert(c[c.len() - 1] == (
                    declared_width(links[k].1),
                    resolved_url(base, links[k].0.unwrap()),
                ));
            }
        }
    }
}

proof fn lemma_first_widest_exists(c: Seq<(i32, Seq<char>)>)
    requires
        c.len() > 0,
    ensures
        exists|i: int| is_first_widest(c, i),
    decreases c.len(),
{
    if c.len() == 1 {
        assert(is_first_widest(c, 0));
    } else {
        let d = c.drop_last();
        lemma_first_widest_exists(d);
        let i = choose|i: int| is_first_widest(d, i);
        let n = c.len() - 1;
        if c[n].0 > c[i].0 {
            assert forall|j: int| 0 <= j < n implies #[trigger] c[j].0 < c[n].0 by {
                assert(c[j] == d[j]);
            }
            assert(is_first_widest(c, n));
        } else {
            assert forall|j: int| 0 <= j < c.len() implies #[trigger] c[j].0 <= c[i].0 by {
                if j < n {
                    assert(c[j] == d[j]);
                }
            }
            assert forall|j: int| 0 <= j < i implies #[trigger] c[j].0 < c[i].0 by {
                assert(c[j] == d[j]);
            }
            assert(c[i] == d[i]);
            assert(is_first_widest(c, i));
        }
    }
}

/// A link without a `sizes` attribute counts as width 0, and a link's width is the
/// largest width its `sizes` declares: so when some link with an `href` declares a
/// positive width `v`, the icon chosen among the links is the resolved `href` of a link
/// whose `sizes` declares a width of at least `v`, never one without `sizes`.
pub proof fn law_sized_links_beat_unsized(
    base: Seq<char>,
    links: Seq<(Option<Seq<char>>, Option<Seq<char>>)>,
    j: int,
    v: i32,
)
    requires
        0 <= j < links.len(),
        links[j].0 is Some,
        links[j].1 is Some,
        largest_size(links[j].1.unwrap()) == Some(v),
        v > 0,
    ensures
        exists|k: int|
            0 <= k < links.len() && (#[trigger] links[k]).0 is Some && links[k].1 is Some
                && largest_size(links[k].1.unwrap()) is Some && largest_size(
                links[k].1.unwrap(),
            ).unwrap() >= v && widest(candidates(base, links)) == Some(
                resolved_url(base, links[k].0.unwrap()),
            ),
{
    let c = candidates(base, links);
    lemma_candidates_origin(base, links);
    assert(links[j].0 is Some);
    let cj = choose|ci: int|
        0 <= ci < c.len() && #[trigger] c[ci] == (
            declared_width(links[j].1),
            resolved_url(base, links[j].0.unwrap()),
        );
    assert(c[cj].0 == v);
    lemma_first_widest_exists(c);
    let ch = choose|i: int| is_first_widest(c, i);
    assert(c[cj].0 <= c[ch].0);
    let k = choose|k: int|
        0 <= k < links.len() && (#[trigger] links[k]).0 is Some && c[ch] == (
            declared_width(links[k].1),
            resolved_url(base, links[k].0.unwrap()),
        );
    assert(declared_width(links[k].1) >= v);
    assert(widest(c) == Some(c[ch].1));
}

proof fn lemma_candidates_index(
    base: Seq<char>,
    links: Seq<(Option<Seq<char>>, Option<Seq<char>>)>,
) -> (ks: Seq<int>)
    ensures
        ks.len() == candidates(base, links).len(),
        forall|ci: int|
            0 <= ci < ks.len() ==> 0 <= #[trigger] ks[ci] < links.len() && links[ks[ci]].0 is Some
                && candidates(base, links)[ci] == (
                declared_width(links[ks[ci]].1),
                resolved_url(base, links[ks[ci]].0.unwrap()),
            ),
        forall|a: int, b: int| 0 <= a < b < ks.len() ==> ks[a] < ks[b],
        forall|k: int|
            0 <= k < links.len() && (#[trigger] links[k]).0 is Some ==> exists|ci: int|
                0 <= ci < ks.len() && #[trigger] ks[ci] == k,
    decreases links.len(),
{
    if links.len() == 0 {
        assert(candidates(base, links).len() == 0);
        Seq::empty()
    } else {
        let init = links.drop_last();
        let r = lemma_candidates_index(base, init);
        let n = links.len() - 1;
        assert(links[n] == links.last());
        assert forall|k: int| 0 <= k < n implies #[trigger] links[k] == init[k] by {}
        if links[n].0 is Some {
            let ks = r.push(n);
            let c = candidates(base, links);
            assert(c == candidates(base, init).push(
                (declared_width(links[n].1), resolved_url(base, links[n].0.unwrap())),
            ));
            assert forall|ci: int| 0 <= ci < ks.len() implies 0 <= #[trigger] ks[ci] < links.len()
                && links[ks[ci]].0 is Some && c[ci] == (
                declared_width(links[ks[ci]].1),
                resolved_url(base, links[ks[ci]].0.unwrap()),
            ) by {
                if ci < r.len() {
                    assert(ks[ci] == r[ci]);
                    assert(links[r[ci]] == init[r[ci]]);
                }
            }
            assert forall|k: int| 0 <= k < links.len() && (#[trigger] links[k]).0 is Some implies exists|ci: int|
                0 <= ci < ks.len() && #[trigger] ks[ci] == k by {
                if k < n {
                    assert(init[k].0 is Some);
                    let ci = choose|ci: int| 0 <= ci < r.len() && #[trigger] r[ci] == k;
                    assert(ks[ci] == r[ci]);
                } else {
                    assert(ks[ks.len() - 1] == n);
                }
            }
            ks
        } else {
            let c = candidates(base, links);
            assert(c == candidates(base, init));
            assert forall|ci: int| 0 <= ci < r.len() implies 0 <= #[trigger] r[ci] < links.len()
                && links[r[ci]].0 is Some && c[ci] == (
                declared_width(links[r[ci]].1),
                resolved_url(base, links[r[ci]].0.unwrap()),
            ) by {
                assert(links[r[ci]] == init[r[ci]]);
            }
            assert forall|k: int| 0 <= k < links.len() && (#[trigger] links[k]).0 is Some implies exists|ci: int|
                0 <= ci < r.len() && #[trigger] r[ci] == k by {
                assert(k < n);
                assert(init[k].0 is Some);
            }
            r
        }
    }
}

/// What a link's `sizes` attribute counts for: the largest width it declares, 0 when
/// it declares none, and 0 when the link has no `sizes` at all.
pub proof fn law_declared_width(sizes: Option<Seq<char>>)
    ensures
        sizes is None ==> declared_width(sizes) == 0,
        sizes matches Some(s) ==> declared_width(sizes) == (match largest_size(s) {
            Some(v) => v,
            None => 0i32,
        }),
{
}

/// The icon chosen among links is the resolved `href` of the first link, in document
/// order, whose declared width is the largest among the links with an `href`; there is
/// none exactly when no link has an `href`.
pub proof fn law_icon_is_first_widest_link(
    base: Seq<char>,
    links: Seq<(Option<Seq<char>>, Option<Seq<char>>)>,
)
    ensures
        widest(candidates(base, links)) is None <==> forall|k: int|
            0 <= k < links.len() ==> (#[trigger] links[k]).0 is None,
        widest(candidates(base, links)) is Some ==> exists|k: int|
            #![trigger links[k]]
            {
                &&& 0 <= k < links.len()
                &&& links[k].0 is Some
                &&& widest(candidates(base, links)) == Some(
                    resolved_url(base, links[k].0.unwrap()),
                )
                &&& forall|m: int|
                    0 <= m < links.len() && (#[trigger] links[m]).0 is Some ==> declared_width(
                        links[m].1,
                    ) <= declared_width(links[k].1)
                &&& forall|m: int|
                    0 <= m < k && (#[trigger] links[m]).0 is Some ==> declared_width(links[m].1)
                        < declared_width(links[k].1)
            },
{
    let c = candidates(base, links);
    let ks = lemma_candidates_index(base, links);
    if c.len() == 0 {
        assert forall|k: int| 0 <= k < links.len() implies (#[trigger] links[k]).0 is None by {
            if links[k].0 is Some {
                let ci = choose|ci: int| 0 <= ci < ks.len() && #[trigger] ks[ci] == k;
            }
        }
    } else {
        lemma_first_widest_exists(c);
        let ch = choose|i: int| is_first_widest(c, i);
        let k = ks[ch];
        assert(0 <= k < links.len());
        assert(widest(c) == Some(c[ch].1));
        assert forall|m: int| 0 <= m < links.len() && (#[trigger] links[m]).0 is Some implies declared_width(
            links[m].1,
        ) <= declared_width(links[k].1) by {
            let cm = choose|ci: int| 0 <= ci < ks.len() && #[trigger] ks[ci] == m;
            assert(c[cm].0 <= c[ch].0);
        }
        assert forall|m: int| 0 <= m < k && (#[trigger] links[m]).0 is Some implies declared_width(
            links[m].1,
        ) < declared_width(links[k].1) by {
            let cm = choose|ci: int| 0 <= ci < ks.len() && #[trigger] ks[ci] == m;
            if cm >= ch {
                if cm > ch {
                    assert(ks[ch] < ks[cm]);
                }
            }
            assert(cm < ch);
            assert(c[cm].0 < c[ch].0);
        }
        assert(!(forall|k: int| 0 <= k < links.len() ==> (#[trigger] links[k]).0 is None)) by {
            assert(links[ks[0]].0 is Some);
        }
    }
}

/// The widest candidate among the links matched by one selector, if any link has an `href`.
fn widest_link(base: &str, links: &Vec<LinkAttrs>) -> (res: Option<String>)
    ensures
        opt_view(res) == widest(candidates(base@, links@.map_values(|l: LinkAttrs| link_view(l)))),
{
    let ghost lv = links@.map_values(|l: LinkAttrs| link_view(l));
    let mut best: Option<(i32, String)> = None;
    let ghost mut bi: int = 0;
    let mut i: usize = 0;
    proof {
        assert(lv.take(0) =~= Seq::<(Option<Seq<char>>, Option<Seq<char>>)>::empty());
    }
    while i < links.len()
        invariant
            lv == links@.map_values(|l: LinkAttrs| link_view(l)),
            i <= links.len(),
            ({
                let c = candidates(base@, lv.take(i as int));
                match best {
                    None => c.len() == 0,
                    Some((w, u)) => is_first_widest(c, bi) && c[bi].0 == w && c[bi].1 == u@,
                }
            }),
        decreases links.len() - i,
    {
        let ghost c0 = candidates(base@, lv.take(i as int));
        proof {
            assert(lv.take(i + 1).drop_last() =~= lv.take(i as int));
            assert(lv.take(i + 1).last() == link_view(links@[i as int]));
        }
        match &links[i].href {
            Some(href) => {
                let width = match &links[i].sizes {
                    Some(sz) => match parse_largest_size(sz.as_str()) {
                        Some(v) => v,
                        None => 0,
                    },
                    None => 0,
                };
                let absolute = resolve_url(base, href.as_str());
                let ghost c1 = c0.push((width, absolute@));
                proof {
                    assert(candidates(base@, lv.take(i + 1)) == c1);
                }
                let replace = match &best {
                    Some((w, _)) => width > *w,
                    None => true,
                };
                if replace {
                    proof {
                        bi = c0.len() as int;
                        assert forall|j: int| 0 <= j < c1.len() implies #[trigger] c1[j].0 <= c1[bi].0 by {
                            if j < c0.len() {
                                assert(c1[j] == c0[j]);
                            }
                        }
                        assert forall|j: int| 0 <= j < bi implies #[trigger] c1[j].0 < c1[bi].0 by {
                            assert(c1[j] == c0[j]);
                        }
                    }
                    best = Some((width, absolute));
                } else {
                    proof {
                        assert(c1[bi] == c0[bi]);
                        assert forall|j: int| 0 <= j < c1.len() implies #[trigger] c1[j].0 <= c1[bi].0 by {
                            if j < c0.len() {
                                assert(c1[j] == c0[j]);
                            }
                        }
                        assert forall|j: int| 0 <= j < bi implies #[trigger] c1[j].0 < c1[bi].0 by {
                            assert(c1[j] == c0[j]);
                        }
                    }
                }
            },
            None => {
                proof {
                    assert(candidates(base@, lv.take(i + 1)) == c0);
                }
            },
        }
        i = i + 1;
    }
    proof {
        assert(lv.take(links.len() as int) =~= lv);
    }
    match best {
        Some((_, u)) => {
            proof {
                let c = candidates(base@, lv);
                let ch = choose|k: int| is_first_widest(c, k);
                assert(is_first_widest(c, bi));
                lemma_first_widest_unique(c, ch, bi);
            }
            Some(u)
        },
        None => None,
    }
}

/// The URL of the best icon declared by the page `html` found at `base`: the first of
/// the icon selectors that matches a link with an `href` decides, and among its links
/// the one declaring the largest width wins (the first one on a tie; a link without
/// `sizes` counts as width 0). `None` when no selector matches such a link.
pub fn find_best_icon(base: &str, html: &str) -> (res: Option<String>)
    ensures
        opt_view(res) == best_icon_among(base@, html@, icon_selectors()),
{
    let sels: [&str; 4] = [
        "link[rel='apple-touch-icon']",
        "link[rel='icon'][sizes]",
        "link[rel='icon']",
        "link[rel='shortcut icon']",
    ];
    let mut k: usize = 0;
    proof {
        assert(icon_selectors().skip(0) =~= icon_selectors());
        assert(sels@.map_values(|s: &str| s@) =~= icon_selectors());
    }
    while k < 4
        invariant
            k <= 4,
            sels@.map_values(|s: &str| s@) == icon_selectors(),
            best_icon_among(base@, html@, icon_selectors()) == best_icon_among(
                base@,
                html@,
                icon_selectors().skip(k as int),
            ),
        decreases 4 - k,
    {
        let links = select_links(html, sels[k]);
        let found = widest_link(base, &links);
        proof {
            let rest = icon_selectors().skip(k as int);
            assert(rest[0] == sels@[k as int]@);
            assert(rest.drop_first() =~= icon_selectors().skip(k + 1));
        }
        if found.is_some() {
            return found;
        }
        k = k + 1;
    }
    None
}


/// The URL of a site as the `url` crate reads it (its serialization), or `None` when
/// `site_url` is not a valid URL. The page is fetched from this URL and its links
/// resolve against it.
pub fn site_base(site_url: &str) -> (res: Option<String>)
    ensures
        opt_view(res) == url_serialization(site_url@),
{
    parse_url(site_url)
}

pub open spec fn page_view(page: Option<&str>) -> Option<Seq<char>> {
    match page {
        Some(p) => Some(p@),
        None => None,
    }
}

/// The fallback icon of a site: `/favicon.ico` at the site, without query or fragment.
pub open spec fn fallback_icon_of(site: Seq<char>) -> Option<Seq<char>> {
    url_with_path_of(site, "/favicon.ico"@)
}

/// The icon to download for the site `site_url` whose page, fetched from `base`, is
/// `page` (`None` when it could not be fetched): the best icon the page declares, and
/// otherwise `/favicon.ico` at the site, with the site's query and fragment dropped.
pub fn icon_url(site_url: &str, base: &str, page: Option<&str>) -> (res: Option<String>)
    ensures
        opt_view(res) == (match page_view(page) {
            Some(h) => match best_icon_among(base@, h, icon_selectors()) {
                Some(u) => Some(u),
                None => fallback_icon_of(site_url@),
            },
            None => fallback_icon_of(site_url@),
        }),
{
    let found = match page {
        Some(html) => find_best_icon(base, html),
        None => None,
    };
    match found {
        Some(u) => Some(u),
        None => url_with_path(site_url, "/favicon.ico"),
    }
}

/// `Some` of the view of the bytes, or `None`.
pub open spec fn opt_bytes_view(o: Option<Vec<u8>>) -> Option<Seq<u8>> {
    match o {
        Some(v) => Some(v@),
        None => None,
    }
}

/// What the `image` crate makes of downloaded icon bytes for a square of side `size`:
/// `None` when they do not decode as an image (`image::load_from_memory`);
/// `Some(Some(png))` with the PNG encoding of the image scaled with Lanczos3 to fit
/// the square, aspect kept (`DynamicImage::resize`, `write_to` as PNG); `Some(None)`
/// when that encoding fails.
pub uninterp spec fn png_icon_of(bytes: Seq<u8>, size: u32) -> Option<Option<Seq<u8>>>;

/// Decodes `bytes` with `image::load_from_memory`, scales the image with
/// `DynamicImage::resize(size, size, Lanczos3)` and encodes it as PNG in memory with
/// `DynamicImage::write_to`. The contract names the outcome (`png_icon_of`) as a
/// function of the bytes and the size.
#[verifier::external_body]
fn png_icon(bytes: &[u8], size: u32) -> (res: Option<Option<Vec<u8>>>)
    ensures
        match (res, png_icon_of(bytes@, size)) {
            (None, None) => true,
            (Some(r), Some(s)) => opt_bytes_view(r) == s,
            _ => false,
        },
{
    match image::load_from_memory(bytes) {
        Ok(img) => {
            let mut out = std::io::Cursor::new(Vec::new());
            let resized = img.resize(size, size, image::imageops::FilterType::Lanczos3);
            match resized.write_to(&mut out, image::ImageFormat::Png) {
                Ok(()) => Some(Some(out.into_inner())),
                Err(_) => Some(None),
            }
        },
        Err(_) => None,
    }
}

/// The side of the square the saved icon is scaled to fit.
pub const ICON_SIZE: u32 = 128;

/// What is written to the icon file for downloaded bytes: the PNG of the image scaled
/// to fit 128x128 when the bytes decode as an image, the bytes as they are when they
/// do not; `None` when the image decodes but cannot be encoded (an error).
pub fn icon_file_bytes(downloaded: &[u8]) -> (res: Option<Vec<u8>>)
    ensures
        opt_bytes_view(res) == (match png_icon_of(downloaded@, ICON_SIZE) {
            None => Some(downloaded@),
            Some(None) => None,
            Some(Some(png)) => Some(png),
        }),
{
    match png_icon(downloaded, ICON_SIZE) {
        None => Some(slice_to_vec(downloaded)),
        Some(r) => r,
    }
}

}
