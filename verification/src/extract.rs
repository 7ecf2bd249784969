//! Helpers the builders share for reading names out of scanned cells: link
//! titles and link text under a required reference prefix, and first
//! qualifying inner-text entries.

use vstd::prelude::*;
use crate::dom::{attr_of, texts_of, Elem};
use crate::text::{has_prefix, lower_of, trim_s, views_of};

verus! {

/// The element's `href` attribute, or empty text when it has none.
pub open spec fn href_of(e: Elem) -> Seq<char> {
    match attr_of(e, "href"@) {
        Some(h) => h,
        None => Seq::empty(),
    }
}

/// The element's trimmed `title` attribute, provided its `href` starts with
/// the given prefix.
pub open spec fn link_title_if_s(prefix: Seq<char>, e: Elem) -> Option<Seq<char>> {
    if has_prefix(href_of(e), prefix) {
        match attr_of(e, "title"@) {
            Some(t) => Some(trim_s(t)),
            None => None,
        }
    } else {
        None
    }
}

/// The first entry from `i` on whose trimmed text is non-empty, trimmed.
pub open spec fn first_nonempty_at(ts: Seq<Seq<char>>, i: int) -> Option<Seq<char>>
    decreases ts.len() - i,
{
    if i < 0 || i >= ts.len() {
        None
    } else if trim_s(ts[i]).len() > 0 {
        Some(trim_s(ts[i]))
    } else {
        first_nonempty_at(ts, i + 1)
    }
}

/// The element's first non-empty trimmed text, provided its `href` starts
/// with the given prefix.
pub open spec fn link_text_if_s(prefix: Seq<char>, e: Elem) -> Option<Seq<char>> {
    if has_prefix(href_of(e), prefix) {
        first_nonempty_at(texts_of(e), 0)
    } else {
        None
    }
}

/// Exact executable counterpart of `link_title_if_s`.
pub fn link_title_if(prefix: &str, e: &Elem) -> (r: Option<String>)
    ensures
        r is Some <==> link_title_if_s(prefix@, *e) is Some,
        r matches Some(v) ==> link_title_if_s(prefix@, *e) == Some(v@),
{
    let href_ok = match e.attr("href") {
        Some(h) => crate::text::starts_with_str(h.as_str(), prefix),
        None => {
            let empty_has = prefix.unicode_len() == 0;
            proof {
                if prefix@.len() == 0 {
                    assert(Seq::<char>::empty().subrange(0, 0) =~= prefix@);
                }
            }
            empty_has
        },
    };
    if !href_ok {
        return None;
    }
    match e.attr("title") {
        Some(t) => Some(crate::text::trim_str(t.as_str()).to_owned()),
        None => None,
    }
}

/// Exact executable counterpart of `link_text_if_s`.
pub fn link_text_if(prefix: &str, e: &Elem) -> (r: Option<String>)
    ensures
        r is Some <==> link_text_if_s(prefix@, *e) is Some,
        r matches Some(v) ==> link_text_if_s(prefix@, *e) == Some(v@),
{
    let href_ok = match e.attr("href") {
        Some(h) => crate::text::starts_with_str(h.as_str(), prefix),
        None => {
            let empty_has = prefix.unicode_len() == 0;
            proof {
                if prefix@.len() == 0 {
                    assert(Seq::<char>::empty().subrange(0, 0) =~= prefix@);
                }
            }
            empty_has
        },
    };
    if !href_ok {
        return None;
    }
    let ts = e.texts();
    let ghost tsv = views_of(ts@);
    let n = ts.len();
    let mut i: usize = 0;
    while i < n
        invariant
            0 <= i <= n,
            n == ts@.len(),
            tsv == views_of(ts@),
            tsv == texts_of(*e),
            has_prefix(href_of(*e), prefix@),
            first_nonempty_at(tsv, 0) == first_nonempty_at(tsv, i as int),
        decreases n - i,
    {
        proof {
            assert(tsv[i as int] == ts@[i as int]@);
        }
        let t = crate::text::trim_str(ts[i].as_str());
        if t.unicode_len() > 0 {
            return Some(t.to_owned());
        }
        i += 1;
    }
    None
}

/// The first title among the elements from `i` on, under `link_title_if_s`.
pub open spec fn first_title_at(es: Seq<Elem>, prefix: Seq<char>, i: int) -> Option<Seq<char>>
    decreases es.len() - i,
{
    if i < 0 || i >= es.len() {
        None
    } else {
        match link_title_if_s(prefix, es[i]) {
            Some(t) => Some(t),
            None => first_title_at(es, prefix, i + 1),
        }
    }
}

/// The first link text among the elements from `i` on, under
/// `link_text_if_s`.
pub open spec fn first_text_at(es: Seq<Elem>, prefix: Seq<char>, i: int) -> Option<Seq<char>>
    decreases es.len() - i,
{
    if i < 0 || i >= es.len() {
        None
    } else {
        match link_text_if_s(prefix, es[i]) {
            Some(t) => Some(t),
            None => first_text_at(es, prefix, i + 1),
        }
    }
}

/// The first link title and the first link text found among the elements,
/// each independently; exact counterparts of `first_title_at` and
/// `first_text_at` from position zero.
pub fn link_title_and_text_opt_if(prefix: &str, els: &Vec<&Elem>) -> (r: (
    Option<String>,
    Option<String>,
))
    ensures
        r.0 is Some <==> first_title_at(crate::dom::derefs_of(els@), prefix@, 0) is Some,
        r.0 matches Some(v) ==> first_title_at(crate::dom::derefs_of(els@), prefix@, 0) == Some(
            v@,
        ),
        r.1 is Some <==> first_text_at(crate::dom::derefs_of(els@), prefix@, 0) is Some,
        r.1 matches Some(v) ==> first_text_at(crate::dom::derefs_of(els@), prefix@, 0) == Some(v@),
{
    let ghost esv = crate::dom::derefs_of(els@);
    let n = els.len();
    let mut title: Option<String> = None;
    let mut i: usize = 0;
    while i < n
        invariant
            0 <= i <= n,
            n == els@.len(),
            esv == crate::dom::derefs_of(els@),
            title is None ==> first_title_at(esv, prefix@, 0) == first_title_at(
                esv,
                prefix@,
                i as int,
            ),
            title matches Some(v) ==> first_title_at(esv, prefix@, 0) == Some(v@),
        decreases n - i,
    {
        proof {
            assert(esv[i as int] == *els@[i as int]);
        }
        if title.is_none() {
            title = link_title_if(prefix, els[i]);
        }
        i += 1;
    }
    let mut text: Option<String> = None;
    let mut j: usize = 0;
    while j < n
        invariant
            0 <= j <= n,
            n == els@.len(),
            esv == crate::dom::derefs_of(els@),
            text is None ==> first_text_at(esv, prefix@, 0) == first_text_at(
                esv,
                prefix@,
                j as int,
            ),
            text matches Some(v) ==> first_text_at(esv, prefix@, 0) == Some(v@),
        decreases n - j,
    {
        proof {
            assert(esv[j as int] == *els@[j as int]);
        }
        if text.is_none() {
            text = link_text_if(prefix, els[j]);
        }
        j += 1;
    }
    (title, text)
}

/// The first link text among the elements; exact counterpart of
/// `first_text_at` from position zero.
#[verifier::loop_isolation(false)]
pub fn first_link_text(prefix: &str, els: &Vec<&Elem>) -> (r: Option<String>)
    ensures
        r is Some <==> first_text_at(crate::dom::derefs_of(els@), prefix@, 0) is Some,
        r matches Some(v) ==> first_text_at(crate::dom::derefs_of(els@), prefix@, 0) == Some(v@),
{
    let ghost esv = crate::dom::derefs_of(els@);
    let n = els.len();
    let mut j: usize = 0;
    while j < n
        invariant
            0 <= j <= n,
            first_text_at(esv, prefix@, 0) == first_text_at(esv, prefix@, j as int),
        decreases n - j,
    {
        proof {
            assert(esv[j as int] == *els@[j as int]);
        }
        let t = link_text_if(prefix, els[j]);
        if t.is_some() {
            return t;
        }
        j += 1;
    }
    None
}

/// The first link title among the elements; exact counterpart of
/// `first_title_at` from position zero.
#[verifier::loop_isolation(false)]
pub fn first_link_title(prefix: &str, els: &Vec<&Elem>) -> (r: Option<String>)
    ensures
        r is Some <==> first_title_at(crate::dom::derefs_of(els@), prefix@, 0) is Some,
        r matches Some(v) ==> first_title_at(crate::dom::derefs_of(els@), prefix@, 0) == Some(v@),
{
    let ghost esv = crate::dom::derefs_of(els@);
    let n = els.len();
    let mut j: usize = 0;
    while j < n
        invariant
            0 <= j <= n,
            first_title_at(esv, prefix@, 0) == first_title_at(esv, prefix@, j as int),
        decreases n - j,
    {
        proof {
            assert(esv[j as int] == *els@[j as int]);
        }
        let t = link_title_if(prefix, els[j]);
        if t.is_some() {
            return t;
        }
        j += 1;
    }
    None
}

/// The first entry from `i` on whose trimmed length lies within the bounds,
/// trimmed.
pub open spec fn inner_first_at(
    min: int,
    max: Option<int>,
    ts: Seq<Seq<char>>,
    i: int,
) -> Option<Seq<char>>
    decreases ts.len() - i,
{
    if i < 0 || i >= ts.len() {
        None
    } else {
        let t = trim_s(ts[i]);
        if t.len() >= min && (match max {
            Some(u) => t.len() <= u,
            None => true,
        }) {
            Some(t)
        } else {
            inner_first_at(min, max, ts, i + 1)
        }
    }
}

/// Exact executable counterpart of `inner_first_at` from position zero.
pub fn inner_text_first_if(min: usize, max: Option<usize>, inner: &Vec<String>) -> (r: Option<
    String,
>)
    ensures
        r is Some <==> inner_first_at(
            min as int,
            (match max {
                Some(u) => Some(u as int),
                None => None,
            }),
            views_of(inner@),
            0,
        ) is Some,
        r matches Some(v) ==> inner_first_at(
            min as int,
            (match max {
                Some(u) => Some(u as int),
                None => None,
            }),
            views_of(inner@),
            0,
        ) == Some(v@),
{
    let ghost tsv = views_of(inner@);
    let ghost maxg: Option<int> = match max {
        Some(u) => Some(u as int),
        None => None,
    };
    let n = inner.len();
    let mut i: usize = 0;
    while i < n
        invariant
            0 <= i <= n,
            n == inner@.len(),
            tsv == views_of(inner@),
            maxg == (match max {
                Some(u) => Some(u as int),
                None => None,
            }),
            inner_first_at(min as int, maxg, tsv, 0) == inner_first_at(
                min as int,
                maxg,
                tsv,
                i as int,
            ),
        decreases n - i,
    {
        proof {
            assert(tsv[i as int] == inner@[i as int]@);
        }
        let t = crate::text::trim_str(inner[i].as_str());
        let l = t.unicode_len();
        let ok = l >= min && (match max {
            Some(u) => l <= u,
            None => true,
        });
        if ok {
            return Some(t.to_owned());
        }
        i += 1;
    }
    None
}

/// Some text beneath the element contains the pattern case-insensitively.
pub open spec fn any_text_contains_ci(ts: Seq<Seq<char>>, pat: Seq<char>) -> bool {
    exists|i: int|
        0 <= i < ts.len() && crate::text::has_substring(lower_of(#[trigger] ts[i]), pat)
}

/// Exact executable counterpart of `any_text_contains_ci` over a list of
/// strings.
pub fn any_string_contains_ci(v: &Vec<String>, pat: &str) -> (r: bool)
    ensures
        r == any_text_contains_ci(views_of(v@), pat@),
{
    let ghost tsv = views_of(v@);
    let n = v.len();
    let mut i: usize = 0;
    while i < n
        invariant
            0 <= i <= n,
            n == v@.len(),
            tsv == views_of(v@),
            forall|k: int|
                0 <= k < i ==> !crate::text::has_substring(lower_of(#[trigger] tsv[k]), pat@),
        decreases n - i,
    {
        proof {
            assert(tsv[i as int] == v@[i as int]@);
        }
        let lc = crate::text::lowercase(v[i].as_str());
        if crate::text::contains_str(lc.as_str(), pat) {
            return true;
        }
        i += 1;
    }
    false
}


/// The first element from `i` on that carries both a link title and link
/// text under the prefix: the pair (text, title).
pub open spec fn first_pair_at(es: Seq<Elem>, prefix: Seq<char>, i: int) -> Option<
    (Seq<char>, Seq<char>),
>
    decreases es.len() - i,
{
    if i < 0 || i >= es.len() {
        None
    } else {
        match (link_title_if_s(prefix, es[i]), link_text_if_s(prefix, es[i])) {
            (Some(n), Some(t)) => Some((t, n)),
            _ => first_pair_at(es, prefix, i + 1),
        }
    }
}

/// The first element carrying both a link title and link text; exact
/// counterpart of `first_pair_at` from position zero. The pair is the
/// trimmed link text and the title.
#[verifier::loop_isolation(false)]
pub fn first_link_pair(prefix: &str, els: &Vec<&Elem>) -> (r: Option<(String, String)>)
    ensures
        r is Some <==> first_pair_at(crate::dom::derefs_of(els@), prefix@, 0) is Some,
        r matches Some((t, n)) ==> first_pair_at(crate::dom::derefs_of(els@), prefix@, 0) == Some(
            (t@, n@),
        ),
{
    let ghost esv = crate::dom::derefs_of(els@);
    let n = els.len();
    let mut j: usize = 0;
    while j < n
        invariant
            0 <= j <= n,
            first_pair_at(esv, prefix@, 0) == first_pair_at(esv, prefix@, j as int),
        decreases n - j,
    {
        proof {
            assert(esv[j as int] == *els@[j as int]);
        }
        let title = link_title_if(prefix, els[j]);
        match title {
            Some(nm) => {
                match link_text_if(prefix, els[j]) {
                    Some(tx) => {
                        return Some((tx, nm));
                    },
                    None => {
                    },
                }
            },
            None => {
            },
        }
        j += 1;
    }
    None
}

/// The first text node of the first element, raw.
pub open spec fn first_el_first_text_s(es: Seq<Elem>) -> Option<Seq<char>> {
    if es.len() > 0 && texts_of(es[0]).len() > 0 {
        Some(texts_of(es[0])[0])
    } else {
        None
    }
}

/// Exact executable counterpart of `first_el_first_text_s`.
pub fn first_el_first_text(els: &Vec<&Elem>) -> (r: Option<String>)
    ensures
        r is Some <==> first_el_first_text_s(crate::dom::derefs_of(els@)) is Some,
        r matches Some(v) ==> first_el_first_text_s(crate::dom::derefs_of(els@)) == Some(v@),
{
    if els.len() == 0 {
        return None;
    }
    proof {
        assert(crate::dom::derefs_of(els@)[0] == *els@[0]);
    }
    let ts = els[0].texts();
    if ts.len() == 0 {
        proof {
            assert(views_of(ts@).len() == 0);
        }
        return None;
    }
    proof {
        assert(views_of(ts@)[0] == ts@[0]@);
    }
    Some(ts[0].clone())
}


/// Every link title among the elements from `i` on, in order.
pub open spec fn all_titles_at(es: Seq<Elem>, prefix: Seq<char>, i: int) -> Seq<Seq<char>>
    decreases es.len() - i,
{
    if i < 0 || i >= es.len() {
        Seq::empty()
    } else {
        (match link_title_if_s(prefix, es[i]) {
            Some(t) => seq![t],
            None => Seq::empty(),
        }) + all_titles_at(es, prefix, i + 1)
    }
}

/// Collects every link title among the elements; exact counterpart of
/// `all_titles_at` from position zero.
#[verifier::loop_isolation(false)]
pub fn all_link_titles(prefix: &str, els: &Vec<&Elem>) -> (r: Vec<String>)
    ensures
        views_of(r@) == all_titles_at(crate::dom::derefs_of(els@), prefix@, 0),
{
    let ghost esv = crate::dom::derefs_of(els@);
    let n = els.len();
    let mut out: Vec<String> = Vec::new();
    let mut j: usize = 0;
    proof {
        assert(views_of(out@) + all_titles_at(esv, prefix@, 0) =~= all_titles_at(esv, prefix@, 0));
        assert(views_of(out@) =~= Seq::<Seq<char>>::empty());
    }
    while j < n
        invariant
            0 <= j <= n,
            views_of(out@) + all_titles_at(esv, prefix@, j as int) == all_titles_at(
                esv,
                prefix@,
                0,
            ),
        decreases n - j,
    {
        proof {
            assert(esv[j as int] == *els@[j as int]);
        }
        let ghost prev = views_of(out@);
        match link_title_if(prefix, els[j]) {
            Some(t) => {
                let ghost tv = t@;
                out.push(t);
                proof {
                    assert(views_of(out@) =~= prev.push(tv));
                    assert((prev + (seq![tv] + all_titles_at(esv, prefix@, j + 1))) =~= (prev.push(
                        tv,
                    ) + all_titles_at(esv, prefix@, j + 1)));
                }
            },
            None => {
            },
        }
        j += 1;
    }
    proof {
        assert(all_titles_at(esv, prefix@, n as int).len() == 0);
        assert(views_of(out@) =~= all_titles_at(esv, prefix@, 0));
    }
    out
}

/// Some element's text contains the pattern case-insensitively.
pub open spec fn any_el_text_contains(es: Seq<Elem>, pat: Seq<char>) -> bool {
    exists|i: int| 0 <= i < es.len() && any_text_contains_ci(texts_of(#[trigger] es[i]), pat)
}

/// Exact executable counterpart of `any_el_text_contains`.
#[verifier::loop_isolation(false)]
pub fn any_elem_contains_ci(els: &Vec<&Elem>, pat: &str) -> (r: bool)
    ensures
        r == any_el_text_contains(crate::dom::derefs_of(els@), pat@),
{
    let ghost esv = crate::dom::derefs_of(els@);
    let n = els.len();
    let mut j: usize = 0;
    while j < n
        invariant
            0 <= j <= n,
            forall|k: int|
                0 <= k < j ==> !any_text_contains_ci(texts_of(#[trigger] esv[k]), pat@),
        decreases n - j,
    {
        proof {
            assert(esv[j as int] == *els@[j as int]);
        }
        let ts = els[j].texts();
        if any_string_contains_ci(&ts, pat) {
            return true;
        }
        j += 1;
    }
    false
}

} // verus!
