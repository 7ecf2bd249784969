//! The crate's model of a parsed markup document: a tree of elements and
//! text, together with the descendant queries and the small selector language
//! that the table scanner applies to it.

use vstd::prelude::*;
use crate::text::{is_ws, is_ws_char, views_of};

verus! {

/// One node of the document tree.
pub enum Node {
    Element(Elem),
    Text(String),
}

/// An element: tag name, attributes in document order, children in document
/// order.
pub struct Elem {
    pub tag: String,
    pub attrs: Vec<(String, String)>,
    pub children: Vec<Node>,
}

/// The dereferenced contents of a sequence of element references.
pub open spec fn derefs_of(v: Seq<&Elem>) -> Seq<Elem> {
    Seq::new(v.len(), |i: int| *v[i])
}

/// The value of the first attribute named `name`, scanning in order.
pub open spec fn attr_in(attrs: Seq<(String, String)>, name: Seq<char>) -> Option<Seq<char>>
    decreases attrs.len(),
{
    if attrs.len() == 0 {
        None
    } else if attrs[0].0@ == name {
        Some(attrs[0].1@)
    } else {
        attr_in(attrs.drop_first(), name)
    }
}

/// The value of the element's attribute `name`, if present.
pub open spec fn attr_of(e: Elem, name: Seq<char>) -> Option<Seq<char>> {
    attr_in(e.attrs@, name)
}

impl Elem {
    /// Looks up an attribute by name; exact counterpart of `attr_of`.
    pub fn attr<'a>(&'a self, name: &str) -> (r: Option<&'a String>)
        ensures
            r is Some <==> attr_of(*self, name@) is Some,
            r matches Some(v) ==> attr_of(*self, name@) == Some(v@),
    {
        let n = self.attrs.len();
        let mut i: usize = 0;
        proof {
            assert(self.attrs@.subrange(0, n as int) =~= self.attrs@);
        }
        while i < n
            invariant
                0 <= i <= n,
                n == self.attrs@.len(),
                attr_in(self.attrs@, name@) == attr_in(
                    self.attrs@.subrange(i as int, n as int),
                    name@,
                ),
            decreases n - i,
        {
            proof {
                assert(self.attrs@.subrange(i as int, n as int).drop_first() =~= self.attrs@
                    .subrange(i + 1, n as int));
                assert(self.attrs@.subrange(i as int, n as int)[0] == self.attrs@[i as int]);
            }
            if crate::text::str_eq(self.attrs[i].0.as_str(), name) {
                return Some(&self.attrs[i].1);
            }
            i += 1;
        }
        proof {
            assert(self.attrs@.subrange(n as int, n as int).len() == 0);
        }
        None
    }
}

/// All text held beneath the given nodes, in document order.
pub open spec fn texts_in_nodes(ns: Seq<Node>) -> Seq<Seq<char>>
    decreases ns,
{
    if ns.len() == 0 {
        Seq::empty()
    } else {
        (match ns[0] {
            Node::Text(s) => seq![s@],
            Node::Element(e) => texts_in_nodes(e.children@),
        }) + texts_in_nodes(ns.drop_first())
    }
}

/// All text held beneath the element, in document order.
pub open spec fn texts_of(e: Elem) -> Seq<Seq<char>> {
    texts_in_nodes(e.children@)
}

fn push_texts(ns: &Vec<Node>, out: &mut Vec<String>)
    ensures
        views_of(final(out)@) == views_of(old(out)@) + texts_in_nodes(ns@),
    decreases ns@,
{
    let n = ns.len();
    let mut i: usize = 0;
    while i < n
        invariant
            0 <= i <= n,
            n == ns@.len(),
            views_of(out@) =~= views_of(old(out)@) + texts_in_nodes(ns@.subrange(0, i as int)),
        decreases n - i,
    {
        proof {
            lemma_texts_take_step(ns@, i as int);
        }
        let ghost prev = out@;
        match &ns[i] {
            Node::Text(s) => {
                out.push(s.clone());
                proof {
                    assert(views_of(out@) =~= views_of(prev) + seq![s@]);
                }
            },
            Node::Element(e) => {
                proof {
                    assert(decreases_to!(ns@ => ns@[i as int]));
                    assert(decreases_to!(ns@[i as int] => e.children));
                    assert(decreases_to!(e.children => e.children@));
                }
                push_texts(&e.children, out);
            },
        }
        proof {
            assert(views_of(out@) =~= views_of(old(out)@) + texts_in_nodes(
                ns@.subrange(0, i + 1),
            ));
        }
        i += 1;
    }
    proof {
        assert(ns@.subrange(0, n as int) =~= ns@);
    }
}

/// Splitting the prefix fold one step further.
proof fn lemma_texts_take_step(ns: Seq<Node>, i: int)
    requires
        0 <= i < ns.len(),
    ensures
        texts_in_nodes(ns.subrange(0, i + 1)) == texts_in_nodes(ns.subrange(0, i)) + (match ns[i] {
            Node::Text(s) => seq![s@],
            Node::Element(e) => texts_in_nodes(e.children@),
        }),
    decreases i,
{
    if i == 0 {
        let one = ns.subrange(0, 1);
        assert(one.drop_first() =~= ns.subrange(0, 0));
        assert(texts_in_nodes(ns.subrange(0, 0)) == Seq::<Seq<char>>::empty());
        assert(texts_in_nodes(one) =~= (match ns[0] {
            Node::Text(s) => seq![s@],
            Node::Element(e) => texts_in_nodes(e.children@),
        }));
    } else {
        let a = ns.subrange(0, i + 1);
        let b = ns.subrange(0, i);
        assert(a.drop_first() =~= ns.drop_first().subrange(0, i));
        assert(b.drop_first() =~= ns.drop_first().subrange(0, i - 1));
        assert(ns.drop_first()[i - 1] == ns[i]);
        lemma_texts_take_step(ns.drop_first(), i - 1);
    }
}

/// One compound of a selector: an optional tag name, an optional class name
/// and an optional required attribute, at least one of which is present.
pub struct Simple {
    pub tag: Option<String>,
    pub class: Option<String>,
    pub attr: Option<String>,
}

/// The mathematical shape of a `Simple`.
pub struct SimpleG {
    pub tag: Option<Seq<char>>,
    pub class: Option<Seq<char>>,
    pub attr: Option<Seq<char>>,
}

impl View for Simple {
    type V = SimpleG;

    open spec fn view(&self) -> SimpleG {
        (SimpleG {
            tag: match self.tag {
                Some(t) => Some(t@),
                None => None,
            },
            class: match self.class {
                Some(c) => Some(c@),
                None => None,
            },
            attr: match self.attr {
                Some(a) => Some(a@),
                None => None,
            },
        })
    }
}

/// One step of a selector chain: the compound to match, reached from the
/// previous step's matches either through children only or through all
/// descendants.
pub struct Step {
    pub child: bool,
    pub simple: Simple,
}

/// The mathematical shape of a `Step`.
pub struct StepG {
    pub child: bool,
    pub simple: SimpleG,
}

impl View for Step {
    type V = StepG;

    open spec fn view(&self) -> StepG {
        (StepG { child: self.child, simple: self.simple@ })
    }
}

/// A parsed selector: a non-empty chain of steps, the first of which is
/// always a descendant step.
pub struct Selector(pub Vec<Step>);

impl View for Selector {
    type V = Seq<StepG>;

    open spec fn view(&self) -> Seq<StepG> {
        Seq::new(self.0@.len(), |i: int| self.0@[i]@)
    }
}

/// The element carries `c` among the white-space-separated tokens of its
/// `class` attribute.
pub open spec fn has_class(e: Elem, c: Seq<char>) -> bool {
    match attr_of(e, "class"@) {
        Some(v) => crate::text::tokens_ws(v).contains(c),
        None => false,
    }
}

/// The element matches the compound: every present constraint holds.
pub open spec fn simple_matches(e: Elem, s: SimpleG) -> bool {
    &&& (match s.tag {
        Some(t) => e.tag@ == t,
        None => true,
    })
    &&& (match s.class {
        Some(c) => has_class(e, c),
        None => true,
    })
    &&& (match s.attr {
        Some(a) => attr_of(e, a) is Some,
        None => true,
    })
}

/// Exact executable counterpart of `simple_matches`.
pub fn simple_matches_e(e: &Elem, s: &Simple) -> (r: bool)
    ensures
        r == simple_matches(*e, s@),
{
    let tag_ok = match &s.tag {
        Some(t) => crate::text::str_eq(e.tag.as_str(), t.as_str()),
        None => true,
    };
    if !tag_ok {
        return false;
    }
    let class_ok = match &s.class {
        Some(c) => {
            match e.attr("class") {
                Some(v) => {
                    let toks = crate::text::split_ws_str(v.as_str());
                    let mut found = false;
                    let mut i: usize = 0;
                    let n = toks.len();
                    while i < n
                        invariant
                            0 <= i <= n,
                            n == toks@.len(),
                            found <==> exists|k: int|
                                0 <= k < i && views_of(toks@)[k] == c@,
                        decreases n - i,
                    {
                        proof {
                            assert(views_of(toks@)[i as int] == toks@[i as int]@);
                        }
                        if crate::text::str_eq(toks[i].as_str(), c.as_str()) {
                            found = true;
                        }
                        i += 1;
                    }
                    proof {
                        let tv = views_of(toks@);
                        if found {
                            assert(tv.contains(c@));
                        } else {
                            assert(forall|k: int| 0 <= k < tv.len() ==> tv[k] != c@);
                            assert(!tv.contains(c@));
                        }
                    }
                    found
                },
                None => false,
            }
        },
        None => true,
    };
    if !class_ok {
        return false;
    }
    match &s.attr {
        Some(a) => e.attr(a.as_str()).is_some(),
        None => true,
    }
}

/// The descendant elements beneath the given nodes that match `s`, in
/// document order.
pub open spec fn descs_in_nodes(ns: Seq<Node>, s: SimpleG) -> Seq<Elem>
    decreases ns,
{
    if ns.len() == 0 {
        Seq::empty()
    } else {
        (match ns[0] {
            Node::Element(e) => (if simple_matches(e, s) {
                seq![e]
            } else {
                Seq::empty()
            }) + descs_in_nodes(e.children@, s),
            Node::Text(_) => Seq::empty(),
        }) + descs_in_nodes(ns.drop_first(), s)
    }
}

/// The descendant elements of `e` (excluding `e` itself) matching `s`.
pub open spec fn descs_of(e: Elem, s: SimpleG) -> Seq<Elem> {
    descs_in_nodes(e.children@, s)
}

/// Splitting the descendant fold one element further.
proof fn lemma_descs_take_step(ns: Seq<Node>, s: SimpleG, i: int)
    requires
        0 <= i < ns.len(),
    ensures
        descs_in_nodes(ns.subrange(0, i + 1), s) == descs_in_nodes(ns.subrange(0, i), s) + (
        match ns[i] {
            Node::Element(e) => (if simple_matches(e, s) {
                seq![e]
            } else {
                Seq::empty()
            }) + descs_in_nodes(e.children@, s),
            Node::Text(_) => Seq::empty(),
        }),
    decreases i,
{
    if i == 0 {
        let one = ns.subrange(0, 1);
        assert(one.drop_first() =~= ns.subrange(0, 0));
        assert(descs_in_nodes(ns.subrange(0, 0), s) == Seq::<Elem>::empty());
        assert(descs_in_nodes(one, s) =~= (match ns[0] {
            Node::Element(e) => (if simple_matches(e, s) {
                seq![e]
            } else {
                Seq::empty()
            }) + descs_in_nodes(e.children@, s),
            Node::Text(_) => Seq::empty(),
        }));
    } else {
        let a = ns.subrange(0, i + 1);
        let b = ns.subrange(0, i);
        assert(a.drop_first() =~= ns.drop_first().subrange(0, i));
        assert(b.drop_first() =~= ns.drop_first().subrange(0, i - 1));
        assert(ns.drop_first()[i - 1] == ns[i]);
        lemma_descs_take_step(ns.drop_first(), s, i - 1);
    }
}

fn push_descs<'a>(ns: &'a Vec<Node>, sel: &Simple, out: &mut Vec<&'a Elem>)
    ensures
        derefs_of(final(out)@) == derefs_of(old(out)@) + descs_in_nodes(ns@, sel@),
    decreases ns@,
{
    let n = ns.len();
    let mut i: usize = 0;
    while i < n
        invariant
            0 <= i <= n,
            n == ns@.len(),
            derefs_of(out@) =~= derefs_of(old(out)@) + descs_in_nodes(
                ns@.subrange(0, i as int),
                sel@,
            ),
        decreases n - i,
    {
        proof {
            lemma_descs_take_step(ns@, sel@, i as int);
        }
        let ghost prev = out@;
        match &ns[i] {
            Node::Text(_) => {
            },
            Node::Element(e) => {
                if simple_matches_e(e, sel) {
                    out.push(e);
                    proof {
                        assert(derefs_of(out@) =~= derefs_of(prev) + seq![*e]);
                    }
                }
                let ghost mid = out@;
                proof {
                    assert(decreases_to!(ns@ => ns@[i as int]));
                    assert(decreases_to!(ns@[i as int] => e.children));
                    assert(decreases_to!(e.children => e.children@));
                }
                push_descs(&e.children, sel, out);
            },
        }
        proof {
            assert(derefs_of(out@) =~= derefs_of(old(out)@) + descs_in_nodes(
                ns@.subrange(0, i + 1),
                sel@,
            ));
        }
        i += 1;
    }
    proof {
        assert(ns@.subrange(0, n as int) =~= ns@);
    }
}

/// The child elements among the given nodes that match `s`, in order.
pub open spec fn kids_in_nodes(ns: Seq<Node>, s: SimpleG) -> Seq<Elem>
    decreases ns.len(),
{
    if ns.len() == 0 {
        Seq::empty()
    } else {
        (match ns[0] {
            Node::Element(e) => if simple_matches(e, s) {
                seq![e]
            } else {
                Seq::empty()
            },
            Node::Text(_) => Seq::empty(),
        }) + kids_in_nodes(ns.drop_first(), s)
    }
}

/// The child elements of `e` matching `s`.
pub open spec fn kids_of(e: Elem, s: SimpleG) -> Seq<Elem> {
    kids_in_nodes(e.children@, s)
}

/// Splitting the child fold one element further.
proof fn lemma_kids_take_step(ns: Seq<Node>, s: SimpleG, i: int)
    requires
        0 <= i < ns.len(),
    ensures
        kids_in_nodes(ns.subrange(0, i + 1), s) == kids_in_nodes(ns.subrange(0, i), s) + (match ns[i] {
            Node::Element(e) => if simple_matches(e, s) {
                seq![e]
            } else {
                Seq::empty()
            },
            Node::Text(_) => Seq::empty(),
        }),
    decreases i,
{
    if i == 0 {
        let one = ns.subrange(0, 1);
        assert(one.drop_first() =~= ns.subrange(0, 0));
        assert(kids_in_nodes(ns.subrange(0, 0), s) == Seq::<Elem>::empty());
        assert(kids_in_nodes(one, s) =~= (match ns[0] {
            Node::Element(e) => if simple_matches(e, s) {
                seq![e]
            } else {
                Seq::empty()
            },
            Node::Text(_) => Seq::empty(),
        }));
    } else {
        let a = ns.subrange(0, i + 1);
        let b = ns.subrange(0, i);
        assert(a.drop_first() =~= ns.drop_first().subrange(0, i));
        assert(b.drop_first() =~= ns.drop_first().subrange(0, i - 1));
        assert(ns.drop_first()[i - 1] == ns[i]);
        lemma_kids_take_step(ns.drop_first(), s, i - 1);
    }
}

fn push_kids<'a>(ns: &'a Vec<Node>, sel: &Simple, out: &mut Vec<&'a Elem>)
    ensures
        derefs_of(final(out)@) == derefs_of(old(out)@) + kids_in_nodes(ns@, sel@),
{
    let n = ns.len();
    let mut i: usize = 0;
    while i < n
        invariant
            0 <= i <= n,
            n == ns@.len(),
            derefs_of(out@) =~= derefs_of(old(out)@) + kids_in_nodes(
                ns@.subrange(0, i as int),
                sel@,
            ),
        decreases n - i,
    {
        proof {
            lemma_kids_take_step(ns@, sel@, i as int);
        }
        let ghost prev = out@;
        match &ns[i] {
            Node::Text(_) => {
            },
            Node::Element(e) => {
                if simple_matches_e(e, sel) {
                    out.push(e);
                    proof {
                        assert(derefs_of(out@) =~= derefs_of(prev) + seq![*e]);
                    }
                }
            },
        }
        proof {
            assert(derefs_of(out@) =~= derefs_of(old(out)@) + kids_in_nodes(
                ns@.subrange(0, i + 1),
                sel@,
            ));
        }
        i += 1;
    }
    proof {
        assert(ns@.subrange(0, n as int) =~= ns@);
    }
}

/// The compound that matches exactly the elements with the given tag.
pub open spec fn simple_tag(t: Seq<char>) -> SimpleG {
    (SimpleG { tag: Some(t), class: None, attr: None })
}

/// All descendant elements of `e` matching the compound; exact counterpart
/// of `descs_of`.
pub fn descendants_matching<'a>(e: &'a Elem, sel: &Simple) -> (r: Vec<&'a Elem>)
    ensures
        derefs_of(r@) == descs_of(*e, sel@),
{
    let mut out: Vec<&'a Elem> = Vec::new();
    proof {
        assert(derefs_of(out@) =~= Seq::<Elem>::empty());
    }
    push_descs(&e.children, sel, &mut out);
    out
}

/// All descendant elements of `e` with the given tag name.
pub fn descendants_tagged<'a>(e: &'a Elem, tag: &str) -> (r: Vec<&'a Elem>)
    ensures
        derefs_of(r@) == descs_of(*e, simple_tag(tag@)),
{
    let sel = Simple { tag: Some(tag.to_owned()), class: None, attr: None };
    proof {
        assert(sel@ == simple_tag(tag@));
    }
    descendants_matching(e, &sel)
}

/// What one step yields from one context element.
pub open spec fn step_once(ctx: Elem, st: StepG) -> Seq<Elem> {
    if st.child {
        kids_of(ctx, st.simple)
    } else {
        descs_of(ctx, st.simple)
    }
}

/// What one step yields from a sequence of context elements, concatenated in
/// order.
pub open spec fn step_over(ctxs: Seq<Elem>, st: StepG) -> Seq<Elem>
    decreases ctxs.len(),
{
    if ctxs.len() == 0 {
        Seq::empty()
    } else {
        step_once(ctxs[0], st) + step_over(ctxs.drop_first(), st)
    }
}

/// Splitting the step fold one context further.
proof fn lemma_step_over_take(ctxs: Seq<Elem>, st: StepG, i: int)
    requires
        0 <= i < ctxs.len(),
    ensures
        step_over(ctxs.subrange(0, i + 1), st) == step_over(ctxs.subrange(0, i), st) + step_once(
            ctxs[i],
            st,
        ),
    decreases i,
{
    if i == 0 {
        let one = ctxs.subrange(0, 1);
        assert(one.drop_first() =~= ctxs.subrange(0, 0));
        assert(step_over(ctxs.subrange(0, 0), st) == Seq::<Elem>::empty());
        assert(step_over(one, st) =~= step_once(ctxs[0], st));
    } else {
        let a = ctxs.subrange(0, i + 1);
        let b = ctxs.subrange(0, i);
        assert(a.drop_first() =~= ctxs.drop_first().subrange(0, i));
        assert(b.drop_first() =~= ctxs.drop_first().subrange(0, i - 1));
        assert(ctxs.drop_first()[i - 1] == ctxs[i]);
        lemma_step_over_take(ctxs.drop_first(), st, i - 1);
    }
}

/// The selector chain applied to a sequence of contexts, one step at a time.
pub open spec fn select_from(ctxs: Seq<Elem>, steps: Seq<StepG>) -> Seq<Elem>
    decreases steps.len(),
{
    if steps.len() == 0 {
        ctxs
    } else {
        select_from(step_over(ctxs, steps[0]), steps.drop_first())
    }
}

/// Adding one step at the end applies `step_over` to the previous result.
proof fn lemma_select_from_snoc(ctxs: Seq<Elem>, steps: Seq<StepG>, st: StepG)
    ensures
        select_from(ctxs, steps.push(st)) == step_over(select_from(ctxs, steps), st),
    decreases steps.len(),
{
    let p = steps.push(st);
    if steps.len() == 0 {
        assert(p.drop_first() =~= steps);
        assert(p[0] == st);
        assert(select_from(ctxs, steps) == ctxs);
        assert(select_from(ctxs, p) == select_from(step_over(ctxs, st), p.drop_first()));
        assert(select_from(step_over(ctxs, st), p.drop_first()) == step_over(ctxs, st));
    } else {
        assert(p.drop_first() =~= steps.drop_first().push(st));
        assert(p[0] == steps[0]);
        lemma_select_from_snoc(step_over(ctxs, steps[0]), steps.drop_first(), st);
        assert(select_from(ctxs, p) == select_from(step_over(ctxs, p[0]), p.drop_first()));
        assert(select_from(ctxs, steps) == select_from(
            step_over(ctxs, steps[0]),
            steps.drop_first(),
        ));
    }
}

/// What the selector yields on the element: the chain applied to `e` as the
/// single starting context.
pub open spec fn select_of(e: Elem, steps: Seq<StepG>) -> Seq<Elem> {
    select_from(seq![e], steps)
}

impl Elem {
    /// Applies a parsed selector beneath this element; exact counterpart of
    /// `select_of`.
    pub fn select<'a>(&'a self, sel: &Selector) -> (r: Vec<&'a Elem>)
        ensures
            derefs_of(r@) == select_of(*self, sel@),
    {
        let mut ctxs: Vec<&'a Elem> = Vec::new();
        ctxs.push(self);
        proof {
            assert(derefs_of(ctxs@) =~= seq![*self]);
            assert(sel@.subrange(0, 0).len() == 0);
        }
        let m = sel.0.len();
        let mut k: usize = 0;
        while k < m
            invariant
                0 <= k <= m,
                m == sel.0@.len(),
                derefs_of(ctxs@) == select_from(seq![*self], sel@.subrange(0, k as int)),
            decreases m - k,
        {
            let step = &sel.0[k];
            let mut next: Vec<&'a Elem> = Vec::new();
            let n = ctxs.len();
            let mut i: usize = 0;
            proof {
                assert(derefs_of(next@) =~= Seq::<Elem>::empty());
                assert(derefs_of(ctxs@).subrange(0, 0).len() == 0);
            }
            while i < n
                invariant
                    0 <= i <= n,
                    n == ctxs@.len(),
                    derefs_of(next@) =~= step_over(
                        derefs_of(ctxs@).subrange(0, i as int),
                        sel.0@[k as int]@,
                    ),
                    k < m,
                    m == sel.0@.len(),
                    step == &sel.0@[k as int],
                decreases n - i,
            {
                proof {
                    lemma_step_over_take(derefs_of(ctxs@), sel.0@[k as int]@, i as int);
                    assert(derefs_of(ctxs@)[i as int] == *ctxs@[i as int]);
                }
                let c: &'a Elem = ctxs[i];
                if step.child {
                    push_kids(&c.children, &step.simple, &mut next);
                } else {
                    push_descs(&c.children, &step.simple, &mut next);
                }
                i += 1;
            }
            proof {
                assert(derefs_of(ctxs@).subrange(0, n as int) =~= derefs_of(ctxs@));
                lemma_select_from_snoc(seq![*self], sel@.subrange(0, k as int), sel.0@[k as int]@);
                assert(sel@.subrange(0, k as int).push(sel.0@[k as int]@) =~= sel@.subrange(
                    0,
                    k + 1,
                ));
            }
            ctxs = next;
            k += 1;
        }
        proof {
            assert(sel@.subrange(0, m as int) =~= sel@);
        }
        ctxs
    }
}

/// A character a selector name may use: a lower-case letter, a digit, a dash
/// or an underscore.
pub open spec fn is_name_char(c: char) -> bool {
    let u = c as u32;
    (0x61 <= u && u <= 0x7a) || (0x30 <= u && u <= 0x39) || u == 0x2d || u == 0x5f
}

fn is_name_char_x(c: char) -> (b: bool)
    ensures
        b == is_name_char(c),
{
    let u = c as u32;
    (0x61 <= u && u <= 0x7a) || (0x30 <= u && u <= 0x39) || u == 0x2d || u == 0x5f
}

/// The first position at or after `i` that does not hold a name character.
pub open spec fn name_end(s: Seq<char>, i: int) -> int
    decreases s.len() - i,
{
    if i < 0 || i >= s.len() || !is_name_char(s[i]) {
        i
    } else {
        name_end(s, i + 1)
    }
}

/// The first position at or after `i` that does not hold white space.
pub open spec fn ws_end(s: Seq<char>, i: int) -> int
    decreases s.len() - i,
{
    if i < 0 || i >= s.len() || !is_ws(s[i]) {
        i
    } else {
        ws_end(s, i + 1)
    }
}

pub proof fn lemma_name_end_bounds(s: Seq<char>, i: int)
    ensures
        0 <= i <= s.len() ==> i <= name_end(s, i) <= s.len(),
    decreases s.len() - i,
{
    if 0 <= i < s.len() && is_name_char(s[i]) {
        lemma_name_end_bounds(s, i + 1);
    }
}

pub proof fn lemma_ws_end_bounds(s: Seq<char>, i: int)
    ensures
        0 <= i <= s.len() ==> i <= ws_end(s, i) <= s.len(),
    decreases s.len() - i,
{
    if 0 <= i < s.len() && is_ws(s[i]) {
        lemma_ws_end_bounds(s, i + 1);
    }
}

fn name_end_x(s: &str, i: usize) -> (r: usize)
    requires
        i <= s@.len(),
    ensures
        r == name_end(s@, i as int),
        i <= r <= s@.len(),
{
    let n = s.unicode_len();
    let mut j: usize = i;
    while j < n && is_name_char_x(s.get_char(j))
        invariant
            i <= j <= n,
            n == s@.len(),
            name_end(s@, i as int) == name_end(s@, j as int),
        decreases n - j,
    {
        j += 1;
    }
    j
}

fn ws_end_x(s: &str, i: usize) -> (r: usize)
    requires
        i <= s@.len(),
    ensures
        r == ws_end(s@, i as int),
        i <= r <= s@.len(),
{
    let n = s.unicode_len();
    let mut j: usize = i;
    while j < n && is_ws_char(s.get_char(j))
        invariant
            i <= j <= n,
            n == s@.len(),
            ws_end(s@, i as int) == ws_end(s@, j as int),
        decreases n - j,
    {
        j += 1;
    }
    j
}

/// The empty compound, no constraint present.
pub open spec fn simple_none() -> SimpleG {
    (SimpleG { tag: None, class: None, attr: None })
}

/// Parses `.name` and `[name]` parts from position `i` onto `acc`; yields the
/// finished compound and the position after it, or nothing when a part is
/// malformed or repeated.
pub open spec fn parse_parts_s(s: Seq<char>, i: int, acc: SimpleG) -> Option<(SimpleG, int)>
    decreases s.len() - i,
    via parse_parts_dec
{
    if i < 0 || i >= s.len() {
        Some((acc, i))
    } else if s[i] == '.' {
        let e = name_end(s, i + 1);
        if e == i + 1 || acc.class is Some {
            None
        } else {
            parse_parts_s(s, e, (SimpleG { class: Some(s.subrange(i + 1, e)), ..acc }))
        }
    } else if s[i] == '[' {
        let e = name_end(s, i + 1);
        if e == i + 1 || e >= s.len() || s[e] != ']' || acc.attr is Some {
            None
        } else {
            parse_parts_s(s, e + 1, (SimpleG { attr: Some(s.subrange(i + 1, e)), ..acc }))
        }
    } else {
        Some((acc, i))
    }
}

#[via_fn]
proof fn parse_parts_dec(s: Seq<char>, i: int, acc: SimpleG) {
    lemma_name_end_bounds(s, i + 1);
}

proof fn lemma_parse_parts_progress(s: Seq<char>, i: int, acc: SimpleG)
    requires
        0 <= i <= s.len(),
    ensures
        parse_parts_s(s, i, acc) matches Some((sm, e)) ==> i <= e <= s.len(),
    decreases s.len() - i,
{
    if 0 <= i < s.len() {
        lemma_name_end_bounds(s, i + 1);
        if s[i] == '.' {
            let e = name_end(s, i + 1);
            if e != i + 1 && !(acc.class is Some) {
                lemma_parse_parts_progress(
                    s,
                    e,
                    (SimpleG { class: Some(s.subrange(i + 1, e)), ..acc }),
                );
            }
        } else if s[i] == '[' {
            let e = name_end(s, i + 1);
            if !(e == i + 1 || e >= s.len() || s[e] != ']' || acc.attr is Some) {
                lemma_parse_parts_progress(
                    s,
                    e + 1,
                    (SimpleG { attr: Some(s.subrange(i + 1, e)), ..acc }),
                );
            }
        }
    }
}

/// Parses one compound at position `i`: an optional leading tag name followed
/// by `.class` and `[attr]` parts, at least one of the three present.
pub open spec fn parse_simple_s(s: Seq<char>, i: int) -> Option<(SimpleG, int)> {
    if 0 <= i < s.len() && is_name_char(s[i]) {
        let e = name_end(s, i);
        parse_parts_s(s, e, (SimpleG { tag: Some(s.subrange(i, e)), class: None, attr: None }))
    } else {
        match parse_parts_s(s, i, simple_none()) {
            Some((sm, e)) => if e == i {
                None
            } else {
                Some((sm, e))
            },
            None => None,
        }
    }
}

proof fn lemma_parse_simple_progress(s: Seq<char>, i: int)
    requires
        0 <= i <= s.len(),
    ensures
        parse_simple_s(s, i) matches Some((sm, e)) ==> i < e <= s.len(),
{
    if 0 <= i <= s.len() {
        lemma_name_end_bounds(s, i);
        if 0 <= i < s.len() && is_name_char(s[i]) {
            let e = name_end(s, i);
            assert(name_end(s, i) == name_end(s, i + 1));
            lemma_name_end_bounds(s, i + 1);
            lemma_parse_parts_progress(
                s,
                e,
                (SimpleG { tag: Some(s.subrange(i, e)), class: None, attr: None }),
            );
        } else {
            lemma_parse_parts_progress(s, i, simple_none());
        }
    }
}

/// Parses the rest of a selector from position `i`. With `first` set the
/// chain must still begin with a compound; afterwards each compound is
/// preceded by a combinator: `>` for a child step, plain white space for a
/// descendant step.
pub open spec fn parse_steps_s(s: Seq<char>, i: int, first: bool) -> Option<Seq<StepG>>
    decreases s.len() - i, 1int,
    via parse_steps_dec
{
    if i < 0 || i > s.len() {
        None
    } else {
        let j = ws_end(s, i);
        if first {
            match parse_simple_s(s, j) {
                Some((sm, e)) => match parse_steps_s(s, e, false) {
                    Some(rest) => Some(seq![(StepG { child: false, simple: sm })] + rest),
                    None => None,
                },
                None => None,
            }
        } else if j >= s.len() {
            Some(Seq::empty())
        } else if s[j] == '>' {
            let k = ws_end(s, j + 1);
            match parse_simple_s(s, k) {
                Some((sm, e)) => match parse_steps_s(s, e, false) {
                    Some(rest) => Some(seq![(StepG { child: true, simple: sm })] + rest),
                    None => None,
                },
                None => None,
            }
        } else if j > i {
            match parse_simple_s(s, j) {
                Some((sm, e)) => match parse_steps_s(s, e, false) {
                    Some(rest) => Some(seq![(StepG { child: false, simple: sm })] + rest),
                    None => None,
                },
                None => None,
            }
        } else {
            None
        }
    }
}

#[via_fn]
proof fn parse_steps_dec(s: Seq<char>, i: int, first: bool) {
    if 0 <= i <= s.len() {
        lemma_ws_end_bounds(s, i);
        let j = ws_end(s, i);
        lemma_parse_simple_progress(s, j);
        if j < s.len() {
            lemma_ws_end_bounds(s, j + 1);
            lemma_parse_simple_progress(s, ws_end(s, j + 1));
        }
    }
}

/// What parsing a whole selector string yields: the chain of steps, or
/// nothing when the text is not a well-formed selector.
pub open spec fn parse_sel_s(s: Seq<char>) -> Option<Seq<StepG>> {
    parse_steps_s(s, 0, true)
}

fn parse_parts_x(s: &str, i: usize, acc: Simple) -> (r: Option<(Simple, usize)>)
    requires
        i <= s@.len(),
    ensures
        r is Some <==> parse_parts_s(s@, i as int, acc@) is Some,
        r matches Some((sm, e)) ==> parse_parts_s(s@, i as int, acc@) == Some((sm@, e as int))
            && e <= s@.len(),
    decreases s@.len() - i,
{
    let n = s.unicode_len();
    if i >= n {
        return Some((acc, i));
    }
    let c = s.get_char(i);
    if c == '.' {
        let e = name_end_x(s, i + 1);
        if e == i + 1 || acc.class.is_some() {
            return None;
        }
        let name = s.substring_char(i + 1, e).to_owned();
        let acc2 = Simple { class: Some(name), ..acc };
        parse_parts_x(s, e, acc2)
    } else if c == '[' {
        let e = name_end_x(s, i + 1);
        if e == i + 1 || e >= n || s.get_char(e) != ']' || acc.attr.is_some() {
            return None;
        }
        let name = s.substring_char(i + 1, e).to_owned();
        let acc2 = Simple { attr: Some(name), ..acc };
        parse_parts_x(s, e + 1, acc2)
    } else {
        Some((acc, i))
    }
}

fn parse_simple_x(s: &str, i: usize) -> (r: Option<(Simple, usize)>)
    requires
        i <= s@.len(),
    ensures
        r is Some <==> parse_simple_s(s@, i as int) is Some,
        r matches Some((sm, e)) ==> parse_simple_s(s@, i as int) == Some((sm@, e as int)) && i < e
            <= s@.len(),
    decreases s@.len() - i,
{
    proof {
        lemma_parse_simple_progress(s@, i as int);
    }
    let n = s.unicode_len();
    if i < n && is_name_char_x(s.get_char(i)) {
        let e = name_end_x(s, i);
        let tag = s.substring_char(i, e).to_owned();
        parse_parts_x(s, e, Simple { tag: Some(tag), class: None, attr: None })
    } else {
        match parse_parts_x(s, i, Simple { tag: None, class: None, attr: None }) {
            Some((sm, e)) => {
                if e == i {
                    None
                } else {
                    Some((sm, e))
                }
            },
            None => None,
        }
    }
}

fn parse_steps_x(s: &str, i: usize, first: bool) -> (r: Option<Vec<Step>>)
    requires
        i <= s@.len(),
    ensures
        r is Some <==> parse_steps_s(s@, i as int, first) is Some,
        r matches Some(v) ==> parse_steps_s(s@, i as int, first) == Some(
            Seq::new(v@.len(), |q: int| v@[q]@),
        ),
    decreases s@.len() - i, 0int,
{
    let n = s.unicode_len();
    let j = ws_end_x(s, i);
    if first {
        match parse_simple_x(s, j) {
            Some((sm, e)) => parse_steps_tail(s, e, false, sm),
            None => None,
        }
    } else if j >= n {
        let v: Vec<Step> = Vec::new();
        proof {
            assert(Seq::new(v@.len(), |q: int| v@[q]@) =~= Seq::<StepG>::empty());
        }
        Some(v)
    } else if s.get_char(j) == '>' {
        let k = ws_end_x(s, j + 1);
        match parse_simple_x(s, k) {
            Some((sm, e)) => parse_steps_tail(s, e, true, sm),
            None => None,
        }
    } else if j > i {
        match parse_simple_x(s, j) {
            Some((sm, e)) => parse_steps_tail(s, e, false, sm),
            None => None,
        }
    } else {
        None
    }
}

/// Helper shared by the three step forms: parses the remaining steps and
/// prepends the step just recognized.
fn parse_steps_tail(s: &str, e: usize, child: bool, sm: Simple) -> (r: Option<Vec<Step>>)
    requires
        e <= s@.len(),
    ensures
        r is Some <==> parse_steps_s(s@, e as int, false) is Some,
        r matches Some(v) ==> (parse_steps_s(s@, e as int, false) matches Some(rest) && Seq::new(
            v@.len(),
            |q: int| v@[q]@,
        ) == seq![(StepG { child, simple: sm@ })] + rest),
    decreases s@.len() - e, 1int,
{
    match parse_steps_x(s, e, false) {
        Some(rest) => {
            let mut out: Vec<Step> = Vec::new();
            out.push(Step { child, simple: sm });
            let mut rest = rest;
            let ghost rest0 = rest@;
            out.append(&mut rest);
            proof {
                assert(Seq::new(out@.len(), |q: int| out@[q]@) =~= seq![
                    (StepG { child, simple: sm@ }),
                ] + Seq::new(rest0.len(), |q: int| rest0[q]@));
            }
            Some(out)
        },
        None => None,
    }
}

impl Selector {
    /// Parses a selector string; exact counterpart of `parse_sel_s`. Yields
    /// nothing exactly when the text is malformed configuration.
    pub fn parse(s: &str) -> (r: Option<Selector>)
        ensures
            r is Some <==> parse_sel_s(s@) is Some,
            r matches Some(sel) ==> parse_sel_s(s@) == Some(sel@),
    {
        match parse_steps_x(s, 0, true) {
            Some(v) => {
                let sel = Selector(v);
                proof {
                    assert(Seq::new(sel.0@.len(), |q: int| sel.0@[q]@) =~= sel@);
                }
                Some(sel)
            },
            None => None,
        }
    }
}

impl Elem {
    /// All text beneath this element; exact counterpart of `texts_of`.
    pub fn texts(&self) -> (r: Vec<String>)
        ensures
            views_of(r@) == texts_of(*self),
    {
        let mut out: Vec<String> = Vec::new();
        proof {
            assert(views_of(out@) =~= Seq::<Seq<char>>::empty());
        }
        push_texts(&self.children, &mut out);
        out
    }
}


#[verifier::external_type_specification]
#[verifier::external_body]
pub struct ExElementRef<'a>(scraper::ElementRef<'a>);

/// Relies on `scraper::Html::parse_document`: parses markup text and hands
/// back the library's copy of the resulting tree, rooted at the document's
/// root element. Nothing is promised of the tree; everything that reads it
/// is verified for every possible tree.
#[verifier::external_body]
pub fn parse_document(s: &str) -> (r: Elem) {
    convert_element(scraper::Html::parse_document(s).root_element())
}

/// Relies on `scraper::ElementRef`: copies the element's tag name, its
/// attributes and its element and text children, one for one, into the
/// library's tree.
#[verifier::external_body]
fn convert_element(e: scraper::ElementRef<'_>) -> (r: Elem) {
    let tag = e.value().name().to_string();
    let mut attrs = Vec::new();
    for (k, v) in e.value().attrs() {
        attrs.push((k.to_string(), v.to_string()));
    }
    let mut children = Vec::new();
    for c in e.children() {
        if let Some(el) = scraper::ElementRef::wrap(c) {
            children.push(Node::Element(convert_element(el)));
        } else if let Some(t) = c.value().as_text() {
            children.push(Node::Text(t.to_string()));
        }
    }
    Elem { tag, attrs, children }
}

} // verus!
