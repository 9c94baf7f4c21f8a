//! The style resolver: matches rules to nodes, cascades competing
//! declarations by (specificity, source order), and produces one resolved
//! style per node together with its cached display classification.

use vstd::prelude::*;
use crate::css::{Declaration, Rule, SimpleSelector, Specificity, Stylesheet, Value};
use crate::css::{spec_specificity_ge, specificity_ge};
use crate::dom::{ElementData, Node, NodeType};

verus! {

/// How a node participates in layout.
#[derive(Clone, Copy, PartialEq, Eq, Structural, Debug)]
pub enum Display {
    Block,
    Inline,
    DisplayNone,
}

/// A document node together with its resolved style, its cached display
/// classification, and its styled children.
pub struct StyledNode {
    /// The resolved property map, with one entry per property name.
    pub specified: Vec<(String, Value)>,
    pub display: Display,
    /// The text content, for text nodes only.
    pub text: Option<String>,
    pub children: Vec<StyledNode>,
}

/// Whether a simple selector matches an element: tag equality if the selector
/// names a tag, id equality if it names an id, and every selector class
/// present on the element.
pub open spec fn spec_matches(e: ElementData, s: SimpleSelector) -> bool {
    &&& (match s.tag_name {
        Some(t) => t@ == e.tag_name@,
        None => true,
    })
    &&& (match s.id {
        Some(sid) => match e.id {
            Some(eid) => eid@ == sid@,
            None => false,
        },
        None => true,
    })
    &&& (forall|i: int| 0 <= i < s.classes@.len() ==> e.spec_has_class(#[trigger] s.classes@[i]@))
}

pub fn selector_matches(e: &ElementData, s: &SimpleSelector) -> (r: bool)
    ensures
        r == spec_matches(*e, *s),
{
    match &s.tag_name {
        Some(t) => {
            if !(*t == e.tag_name) {
                return false;
            }
        },
        None => {},
    }
    match &s.id {
        Some(sid) => {
            match &e.id {
                Some(eid) => {
                    if !(*eid == *sid) {
                        return false;
                    }
                },
                None => {
                    return false;
                },
            }
        },
        None => {},
    }
    let mut i: usize = 0;
    while i < s.classes.len()
        invariant
            0 <= i <= s.classes@.len(),
            forall|j: int| 0 <= j < i ==> e.spec_has_class(#[trigger] s.classes@[j]@),
            match s.tag_name {
                Some(t) => t@ == e.tag_name@,
                None => true,
            },
            match s.id {
                Some(sid) => match e.id {
                    Some(eid) => eid@ == sid@,
                    None => false,
                },
                None => true,
            },
        decreases s.classes@.len() - i,
    {
        if !e.has_class(&s.classes[i]) {
            return false;
        }
        i = i + 1;
    }
    true
}

/// The strength with which a rule's selector list matches an element: the
/// greatest specificity among its matching selectors, or `None` when no
/// selector matches.
pub open spec fn spec_match_strength(e: ElementData, sels: Seq<SimpleSelector>) -> Option<Specificity>
    decreases sels.len(),
{
    if sels.len() == 0 {
        None
    } else {
        let prev = spec_match_strength(e, sels.drop_last());
        if spec_matches(e, sels.last()) {
            let ms = sels.last().spec_specificity();
            match prev {
                None => Some(ms),
                Some(p) => if spec_specificity_ge(ms, p) {
                    Some(ms)
                } else {
                    prev
                },
            }
        } else {
            prev
        }
    }
}

pub fn match_strength(e: &ElementData, sels: &Vec<SimpleSelector>) -> (r: Option<Specificity>)
    ensures
        r == spec_match_strength(*e, sels@),
{
    let mut best: Option<Specificity> = None;
    let mut i: usize = 0;
    while i < sels.len()
        invariant
            0 <= i <= sels@.len(),
            best == spec_match_strength(*e, sels@.take(i as int)),
        decreases sels@.len() - i,
    {
        proof {
            assert(sels@.take(i + 1).drop_last() =~= sels@.take(i as int));
            assert(sels@.take(i + 1).last() == sels@[i as int]);
        }
        if selector_matches(e, &sels[i]) {
            let ms = sels[i].specificity();
            best = match best {
                None => Some(ms),
                Some(p) => if specificity_ge(ms, p) {
                    Some(ms)
                } else {
                    Some(p)
                },
            };
        }
        i = i + 1;
    }
    proof {
        assert(sels@.take(sels@.len() as int) =~= sels@);
    }
    best
}

/// One cascade step: a declaration from a rule matched with strength `ms`
/// takes the property when nothing holds it yet or when `ms` is at least the
/// holder's strength — so equal strength resolves to the later writer.
pub open spec fn spec_step(
    prev: Option<(Specificity, Value)>,
    ms: Specificity,
    d: Declaration,
    p: Seq<char>,
) -> Option<(Specificity, Value)> {
    if d.name@ == p {
        match prev {
            None => Some((ms, d.value)),
            Some(pv) => if spec_specificity_ge(ms, pv.0) {
                Some((ms, d.value))
            } else {
                prev
            },
        }
    } else {
        prev
    }
}

/// Folding one matched rule's declarations, in source order, over the
/// cascade state for property `p`.
pub open spec fn spec_fold_decls(
    prev: Option<(Specificity, Value)>,
    ms: Specificity,
    decls: Seq<Declaration>,
    p: Seq<char>,
) -> Option<(Specificity, Value)>
    decreases decls.len(),
{
    if decls.len() == 0 {
        prev
    } else {
        spec_step(spec_fold_decls(prev, ms, decls.drop_last(), p), ms, decls.last(), p)
    }
}

/// The cascade: rules are applied in source order, and a declaration wins the
/// property exactly when its rule's match strength is at least that of the
/// current holder. The result carries the winning strength and value.
pub open spec fn spec_cascade(e: ElementData, rules: Seq<Rule>, p: Seq<char>) -> Option<(Specificity, Value)>
    decreases rules.len(),
{
    if rules.len() == 0 {
        None
    } else {
        let prev = spec_cascade(e, rules.drop_last(), p);
        match spec_match_strength(e, rules.last().selectors@) {
            None => prev,
            Some(ms) => spec_fold_decls(prev, ms, rules.last().declarations@, p),
        }
    }
}

/// The resolved value of property `p` for element `e`: the cascade winner's
/// value, or nothing when no matching rule declares `p`.
pub open spec fn spec_resolved(e: ElementData, rules: Seq<Rule>, p: Seq<char>) -> Option<Value> {
    match spec_cascade(e, rules, p) {
        Some(pv) => Some(pv.1),
        None => None,
    }
}

/// First-match lookup in a resolved property list.
pub open spec fn spec_style_find(s: Seq<(String, Value)>, p: Seq<char>) -> Option<Value>
    decreases s.len(),
{
    if s.len() == 0 {
        None
    } else if s.first().0@ == p {
        Some(s.first().1)
    } else {
        spec_style_find(s.drop_first(), p)
    }
}

/// First-match lookup carrying the recorded specificity alongside the value.
pub open spec fn spec_entry(
    nv: Seq<(String, Value)>,
    sp: Seq<Specificity>,
    p: Seq<char>,
) -> Option<(Specificity, Value)>
    decreases nv.len(),
{
    if nv.len() == 0 || sp.len() == 0 {
        None
    } else if nv.first().0@ == p {
        Some((sp.first(), nv.first().1))
    } else {
        spec_entry(nv.drop_first(), sp.drop_first(), p)
    }
}

/// No property name occurs twice.
pub open spec fn unique_names(s: Seq<(String, Value)>) -> bool {
    forall|i: int, j: int| 0 <= i < j < s.len() ==> s[i].0@ != s[j].0@
}

proof fn lemma_entry_drops_specificity(nv: Seq<(String, Value)>, sp: Seq<Specificity>, p: Seq<char>)
    requires
        nv.len() == sp.len(),
    ensures
        spec_style_find(nv, p) == match spec_entry(nv, sp, p) {
            Some(pv) => Some(pv.1),
            None => None::<Value>,
        },
    decreases nv.len(),
{
    if nv.len() > 0 && !(nv.first().0@ == p) {
        lemma_entry_drops_specificity(nv.drop_first(), sp.drop_first(), p);
    }
}

proof fn lemma_entry_at_index(nv: Seq<(String, Value)>, sp: Seq<Specificity>, k: int, p: Seq<char>)
    requires
        nv.len() == sp.len(),
        unique_names(nv),
        0 <= k < nv.len(),
        nv[k].0@ == p,
    ensures
        spec_entry(nv, sp, p) == Some((sp[k], nv[k].1)),
    decreases nv.len(),
{
    if k > 0 {
        assert(nv.first().0@ != p);
        lemma_entry_at_index(nv.drop_first(), sp.drop_first(), k - 1, p);
    }
}

proof fn lemma_entry_absent(nv: Seq<(String, Value)>, sp: Seq<Specificity>, p: Seq<char>)
    requires
        nv.len() == sp.len(),
        forall|k: int| 0 <= k < nv.len() ==> nv[k].0@ != p,
    ensures
        spec_entry(nv, sp, p) == None::<(Specificity, Value)>,
    decreases nv.len(),
{
    if nv.len() > 0 {
        lemma_entry_absent(nv.drop_first(), sp.drop_first(), p);
    }
}

proof fn lemma_entry_update(
    nv: Seq<(String, Value)>,
    sp: Seq<Specificity>,
    k: int,
    name: Seq<char>,
    v: Value,
    ms: Specificity,
    nv2: Seq<(String, Value)>,
    sp2: Seq<Specificity>,
)
    requires
        nv.len() == sp.len(),
        unique_names(nv),
        0 <= k < nv.len(),
        nv[k].0@ == name,
        nv2.len() == nv.len(),
        sp2 == sp.update(k, ms),
        forall|i: int| 0 <= i < nv.len() && i != k ==> nv2[i] == nv[i],
        nv2[k].0@ == name,
        nv2[k].1 == v,
    ensures
        forall|p: Seq<char>| #[trigger] spec_entry(nv2, sp2, p) == if p == name {
            Some((ms, v))
        } else {
            spec_entry(nv, sp, p)
        },
    decreases nv.len(),
{
    assert forall|p: Seq<char>| #[trigger] spec_entry(nv2, sp2, p) == if p == name {
        Some((ms, v))
    } else {
        spec_entry(nv, sp, p)
    } by {
        lemma_entry_update_one(nv, sp, k, name, v, ms, nv2, sp2, p);
    }
}

proof fn lemma_entry_update_one(
    nv: Seq<(String, Value)>,
    sp: Seq<Specificity>,
    k: int,
    name: Seq<char>,
    v: Value,
    ms: Specificity,
    nv2: Seq<(String, Value)>,
    sp2: Seq<Specificity>,
    p: Seq<char>,
)
    requires
        nv.len() == sp.len(),
        unique_names(nv),
        0 <= k < nv.len(),
        nv[k].0@ == name,
        nv2.len() == nv.len(),
        sp2 == sp.update(k, ms),
        forall|i: int| 0 <= i < nv.len() && i != k ==> nv2[i] == nv[i],
        nv2[k].0@ == name,
        nv2[k].1 == v,
    ensures
        spec_entry(nv2, sp2, p) == if p == name {
            Some((ms, v))
        } else {
            spec_entry(nv, sp, p)
        },
    decreases nv.len(),
{
    if k == 0 {
        if p == name {
        } else {
            assert(nv2.first() == nv2[0]);
            assert(nv2.drop_first() =~= nv.drop_first());
            assert(sp2.drop_first() =~= sp.drop_first());
        }
    } else {
        assert(nv2.first() == nv[0]);
        assert(sp2.first() == sp[0]);
        if nv.first().0@ == p {
        } else {
            assert(nv2.drop_first().len() == nv.drop_first().len());
            assert(forall|i: int|
                0 <= i < nv.drop_first().len() && i != k - 1 ==> nv2.drop_first()[i] == nv.drop_first()[i]);
            assert(sp2.drop_first() =~= sp.drop_first().update(k - 1, ms));
            lemma_entry_update_one(
                nv.drop_first(),
                sp.drop_first(),
                k - 1,
                name,
                v,
                ms,
                nv2.drop_first(),
                sp2.drop_first(),
                p,
            );
        }
    }
}

proof fn lemma_entry_push(
    nv: Seq<(String, Value)>,
    sp: Seq<Specificity>,
    name: Seq<char>,
    v: Value,
    ms: Specificity,
    entry: (String, Value),
)
    requires
        nv.len() == sp.len(),
        forall|k: int| 0 <= k < nv.len() ==> nv[k].0@ != name,
        entry.0@ == name,
        entry.1 == v,
    ensures
        forall|p: Seq<char>| #[trigger] spec_entry(nv.push(entry), sp.push(ms), p) == if p == name {
            Some((ms, v))
        } else {
            spec_entry(nv, sp, p)
        },
    decreases nv.len(),
{
    assert forall|p: Seq<char>| #[trigger] spec_entry(nv.push(entry), sp.push(ms), p) == if p == name {
        Some((ms, v))
    } else {
        spec_entry(nv, sp, p)
    } by {
        lemma_entry_push_one(nv, sp, name, v, ms, entry, p);
    }
}

proof fn lemma_entry_push_one(
    nv: Seq<(String, Value)>,
    sp: Seq<Specificity>,
    name: Seq<char>,
    v: Value,
    ms: Specificity,
    entry: (String, Value),
    p: Seq<char>,
)
    requires
        nv.len() == sp.len(),
        forall|k: int| 0 <= k < nv.len() ==> nv[k].0@ != name,
        entry.0@ == name,
        entry.1 == v,
    ensures
        spec_entry(nv.push(entry), sp.push(ms), p) == if p == name {
            Some((ms, v))
        } else {
            spec_entry(nv, sp, p)
        },
    decreases nv.len(),
{
    if nv.len() == 0 {
        assert(nv.push(entry).first() == entry);
        if p != name {
            assert(spec_entry(nv.push(entry), sp.push(ms), p)
                == spec_entry(nv.push(entry).drop_first(), sp.push(ms).drop_first(), p));
            assert(nv.push(entry).drop_first().len() == 0);
        }
    } else {
        assert(nv.push(entry).first() == nv[0]);
        assert(nv[0].0@ != name);
        assert(nv.push(entry).drop_first() =~= nv.drop_first().push(entry));
        assert(sp.push(ms).drop_first() =~= sp.drop_first().push(ms));
        if nv.first().0@ == p {
        } else {
            lemma_entry_push_one(nv.drop_first(), sp.drop_first(), name, v, ms, entry, p);
        }
    }
}

/// Resolve the property map of one element against a stylesheet.
///
/// The result names each property at most once, and looking any property up
/// in it gives exactly the cascade's answer.
pub fn specified_values(e: &ElementData, stylesheet: &Stylesheet) -> (r: Vec<(String, Value)>)
    ensures
        unique_names(r@),
        forall|p: Seq<char>| #[trigger] spec_style_find(r@, p) == spec_resolved(*e, stylesheet.rules@, p),
{
    let mut nv: Vec<(String, Value)> = Vec::new();
    let mut sp: Vec<Specificity> = Vec::new();
    let n = stylesheet.rules.len();
    let mut i: usize = 0;
    while i < n
        invariant
            n == stylesheet.rules@.len(),
            0 <= i <= n,
            nv@.len() == sp@.len(),
            unique_names(nv@),
            forall|p: Seq<char>| #[trigger] spec_entry(nv@, sp@, p)
                == spec_cascade(*e, stylesheet.rules@.take(i as int), p),
        decreases n - i,
    {
        let ghost rules_pre = stylesheet.rules@.take(i as int);
        proof {
            assert(stylesheet.rules@.take(i + 1).drop_last() =~= rules_pre);
            assert(stylesheet.rules@.take(i + 1).last() == stylesheet.rules@[i as int]);
        }
        let rule = &stylesheet.rules[i];
        match match_strength(e, &rule.selectors) {
            None => {},
            Some(ms) => {
                let m = rule.declarations.len();
                let mut j: usize = 0;
                while j < m
                    invariant
                        m == rule.declarations@.len(),
                        rule == &stylesheet.rules@[i as int],
                        rules_pre == stylesheet.rules@.take(i as int),
                        spec_match_strength(*e, rule.selectors@) == Some(ms),
                        0 <= j <= m,
                        nv@.len() == sp@.len(),
                        unique_names(nv@),
                        forall|p: Seq<char>| #[trigger] spec_entry(nv@, sp@, p) == spec_fold_decls(
                            spec_cascade(*e, rules_pre, p),
                            ms,
                            rule.declarations@.take(j as int),
                            p,
                        ),
                    decreases m - j,
                {
                    let ghost decls_pre = rule.declarations@.take(j as int);
                    proof {
                        assert(rule.declarations@.take(j + 1).drop_last() =~= decls_pre);
                        assert(rule.declarations@.take(j + 1).last() == rule.declarations@[j as int]);
                    }
                    let d = &rule.declarations[j];
                    let ghost nv0 = nv@;
                    let ghost sp0 = sp@;
                    match find_name(&nv, &d.name) {
                        Some(k) => {
                            if specificity_ge(ms, sp[k]) {
                                proof {
                                    lemma_entry_at_index(nv0, sp0, k as int, d.name@);
                                }
                                nv.set(k, (d.name.clone(), d.value.dup()));
                                sp.set(k, ms);
                                proof {
                                    assert(nv@[k as int].0@ == d.name@);
                                    lemma_entry_update(nv0, sp0, k as int, d.name@, d.value, ms, nv@, sp@);
                                }
                            } else {
                                proof {
                                    lemma_entry_at_index(nv0, sp0, k as int, d.name@);
                                }
                            }
                        },
                        None => {
                            proof {
                                lemma_entry_absent(nv0, sp0, d.name@);
                            }
                            let entry = (d.name.clone(), d.value.dup());
                            let ghost entry_g = entry;
                            nv.push(entry);
                            sp.push(ms);
                            proof {
                                lemma_entry_push(nv0, sp0, d.name@, d.value, ms, entry_g);
                            }
                        },
                    }
                    proof {
                        assert forall|p: Seq<char>| #[trigger] spec_entry(nv@, sp@, p) == spec_fold_decls(
                            spec_cascade(*e, rules_pre, p),
                            ms,
                            rule.declarations@.take(j + 1),
                            p,
                        ) by {
                            let prev = spec_fold_decls(spec_cascade(*e, rules_pre, p), ms, decls_pre, p);
                            assert(spec_fold_decls(spec_cascade(*e, rules_pre, p), ms, rule.declarations@.take(j + 1), p)
                                == spec_step(prev, ms, rule.declarations@[j as int], p));
                            assert(spec_entry(nv0, sp0, p) == prev);
                        };
                    }
                    j = j + 1;
                }
                proof {
                    assert(rule.declarations@.take(m as int) =~= rule.declarations@);
                }
            },
        }
        proof {
            assert forall|p: Seq<char>| #[trigger] spec_entry(nv@, sp@, p)
                == spec_cascade(*e, stylesheet.rules@.take(i + 1), p) by {
                assert(spec_cascade(*e, stylesheet.rules@.take(i + 1), p) == {
                    let prev = spec_cascade(*e, rules_pre, p);
                    match spec_match_strength(*e, stylesheet.rules@[i as int].selectors@) {
                        None => prev,
                        Some(ms) => spec_fold_decls(prev, ms, stylesheet.rules@[i as int].declarations@, p),
                    }
                });
            };
        }
        i = i + 1;
    }
    proof {
        assert(stylesheet.rules@.take(n as int) =~= stylesheet.rules@);
        assert forall|p: Seq<char>| #[trigger] spec_style_find(nv@, p)
            == spec_resolved(*e, stylesheet.rules@, p) by {
            lemma_entry_drops_specificity(nv@, sp@, p);
        }
    }
    nv
}

/// The index of `name` in the property list, if present.
fn find_name(nv: &Vec<(String, Value)>, name: &String) -> (r: Option<usize>)
    ensures
        match r {
            Some(k) => k < nv@.len() && nv@[k as int].0@ == name@,
            None => forall|k: int| 0 <= k < nv@.len() ==> nv@[k].0@ != name@,
        },
{
    let mut i: usize = 0;
    while i < nv.len()
        invariant
            0 <= i <= nv@.len(),
            forall|k: int| 0 <= k < i ==> nv@[k].0@ != name@,
        decreases nv@.len() - i,
    {
        if nv[i].0 == *name {
            return Some(i);
        }
        i = i + 1;
    }
    None
}

/// Look a property up in a resolved style, copying the value out.
pub fn style_value(specified: &Vec<(String, Value)>, name: &String) -> (r: Option<Value>)
    ensures
        r == spec_style_find(specified@, name@),
{
    let mut i: usize = 0;
    proof {
        assert(specified@.skip(0) =~= specified@);
    }
    while i < specified.len()
        invariant
            0 <= i <= specified@.len(),
            spec_style_find(specified@, name@) == spec_style_find(specified@.skip(i as int), name@),
        decreases specified@.len() - i,
    {
        proof {
            assert(specified@.skip(i as int).first() == specified@[i as int]);
            assert(specified@.skip(i as int).drop_first() =~= specified@.skip(i + 1));
        }
        if specified[i].0 == *name {
            return Some(specified[i].1.dup());
        }
        i = i + 1;
    }
    proof {
        assert(specified@.skip(specified@.len() as int).len() == 0);
    }
    None
}

/// The display classification read off a resolved `display` value: the
/// keyword `block` or `none` selects those classes, anything else is inline.
pub open spec fn spec_display_from(v: Option<Value>) -> Display {
    match v {
        Some(Value::Keyword(k)) => if k@ == "block"@ {
            Display::Block
        } else if k@ == "none"@ {
            Display::DisplayNone
        } else {
            Display::Inline
        },
        _ => Display::Inline,
    }
}

/// An element's display classification under a rule list.
pub open spec fn spec_display_value(e: ElementData, rules: Seq<Rule>) -> Display {
    spec_display_from(spec_resolved(e, rules, "display"@))
}

/// Read the display classification out of a resolved property map.
pub fn display_value(specified: &Vec<(String, Value)>) -> (r: Display)
    ensures
        r == spec_display_from(spec_style_find(specified@, "display"@)),
{
    let dkey: String = "display".to_owned();
    match style_value(specified, &dkey) {
        Some(Value::Keyword(k)) => {
            let block: String = "block".to_owned();
            let none_kw: String = "none".to_owned();
            if k == block {
                Display::Block
            } else if k == none_kw {
                Display::DisplayNone
            } else {
                Display::Inline
            }
        },
        _ => Display::Inline,
    }
}

/// What the style resolver owes for every node of the tree: text nodes are
/// inline with an empty map; element nodes carry exactly the cascade's
/// answers, the matching display classification, and styled children in
/// document order.
pub open spec fn styled_ok(sn: StyledNode, n: Node, rules: Seq<Rule>) -> bool
    decreases n,
{
    match n.node_type {
        NodeType::Text(t) => {
            &&& sn.specified@.len() == 0
            &&& sn.display == Display::Inline
            &&& (match sn.text {
                Some(s) => s@ == t@,
                None => false,
            })
            &&& sn.children@.len() == 0
        },
        NodeType::Element(e) => {
            &&& unique_names(sn.specified@)
            &&& (forall|p: Seq<char>| #[trigger] spec_style_find(sn.specified@, p) == spec_resolved(e, rules, p))
            &&& sn.display == spec_display_value(e, rules)
            &&& sn.text is None
            &&& sn.children@.len() == n.children@.len()
            &&& (forall|i: int| 0 <= i < n.children@.len()
                ==> styled_ok(#[trigger] sn.children@[i], n.children@[i], rules))
        },
    }
}

/// Resolve the style of every node reachable from `root`.
pub fn style_tree(root: &Node, stylesheet: &Stylesheet) -> (r: StyledNode)
    ensures
        styled_ok(r, *root, stylesheet.rules@),
    decreases *root,
{
    match &root.node_type {
        NodeType::Text(t) => StyledNode {
            specified: Vec::new(),
            display: Display::Inline,
            text: Some(t.clone()),
            children: Vec::new(),
        },
        NodeType::Element(e) => {
            let specified = specified_values(e, stylesheet);
            let display = display_value(&specified);
            let mut children: Vec<StyledNode> = Vec::new();
            let mut i: usize = 0;
            while i < root.children.len()
                invariant
                    0 <= i <= root.children@.len(),
                    children@.len() == i,
                    forall|j: int| 0 <= j < i
                        ==> styled_ok(#[trigger] children@[j], root.children@[j], stylesheet.rules@),
                decreases root.children@.len() - i,
            {
                let c = style_tree(&root.children[i], stylesheet);
                children.push(c);
                i = i + 1;
            }
            StyledNode { specified, display, text: None, children }
        },
    }
}

/// Law: a rule pushed onto the sheet whose match strength is at least the
/// current winner's takes the property — in particular, of two rules with
/// equal specificity the later one in source order wins.
pub proof fn lemma_cascade_later_wins(
    e: ElementData,
    rules: Seq<Rule>,
    r: Rule,
    p: Seq<char>,
    ms: Specificity,
    v: Value,
)
    requires
        spec_match_strength(e, r.selectors@) == Some(ms),
        spec_decl_find(r.declarations@, p) == Some(v),
        match spec_cascade(e, rules, p) {
            Some(pv) => spec_specificity_ge(ms, pv.0),
            None => true,
        },
    ensures
        spec_cascade(e, rules.push(r), p) == Some((ms, v)),
{
    assert(rules.push(r).drop_last() =~= rules);
    assert(rules.push(r).last() == r);
    lemma_fold_decls_find(spec_cascade(e, rules, p), ms, r.declarations@, p);
}

/// Law: a rule pushed onto the sheet whose match strength is below the
/// current winner's changes nothing — higher specificity overrides source
/// order.
pub proof fn lemma_cascade_higher_specificity_wins(
    e: ElementData,
    rules: Seq<Rule>,
    r: Rule,
    p: Seq<char>,
    w: (Specificity, Value),
)
    requires
        spec_cascade(e, rules, p) == Some(w),
        match spec_match_strength(e, r.selectors@) {
            Some(ms) => !spec_specificity_ge(ms, w.0),
            None => true,
        },
    ensures
        spec_cascade(e, rules.push(r), p) == Some(w),
{
    assert(rules.push(r).drop_last() =~= rules);
    assert(rules.push(r).last() == r);
    match spec_match_strength(e, r.selectors@) {
        Some(ms) => {
            lemma_fold_decls_find(Some(w), ms, r.declarations@, p);
        },
        None => {},
    }
}

/// Law: any matching rule that declares a property forces the cascade winner
/// to have at least its specificity, wherever it stands in the sheet.
pub proof fn lemma_cascade_dominates(e: ElementData, rules: Seq<Rule>, i: int, p: Seq<char>, ms: Specificity, v: Value)
    requires
        0 <= i < rules.len(),
        spec_match_strength(e, rules[i].selectors@) == Some(ms),
        spec_decl_find(rules[i].declarations@, p) == Some(v),
    ensures
        match spec_cascade(e, rules, p) {
            Some(w) => spec_specificity_ge(w.0, ms),
            None => false,
        },
    decreases rules.len(),
{
    let prev = spec_cascade(e, rules.drop_last(), p);
    if i == rules.len() - 1 {
        lemma_fold_decls_find(prev, ms, rules.last().declarations@, p);
        lemma_specificity_ge_refl();
    } else {
        assert(rules.drop_last()[i] == rules[i]);
        lemma_cascade_dominates(e, rules.drop_last(), i, p, ms, v);
        match spec_match_strength(e, rules.last().selectors@) {
            None => {},
            Some(ms2) => {
                lemma_fold_decls_find(prev, ms2, rules.last().declarations@, p);
                lemma_specificity_ge_total();
            },
        }
    }
}

/// The last declaration of property `p` in a rule's declaration list.
pub open spec fn spec_decl_find(decls: Seq<Declaration>, p: Seq<char>) -> Option<Value>
    decreases decls.len(),
{
    if decls.len() == 0 {
        None
    } else if decls.last().name@ == p {
        Some(decls.last().value)
    } else {
        spec_decl_find(decls.drop_last(), p)
    }
}

/// Folding a matched rule's declarations equals comparing once against the
/// rule's last declaration of the property.
proof fn lemma_fold_decls_find(
    prev: Option<(Specificity, Value)>,
    ms: Specificity,
    decls: Seq<Declaration>,
    p: Seq<char>,
)
    ensures
        spec_fold_decls(prev, ms, decls, p) == match spec_decl_find(decls, p) {
            None => prev,
            Some(v) => match prev {
                None => Some((ms, v)),
                Some(pv) => if spec_specificity_ge(ms, pv.0) {
                    Some((ms, v))
                } else {
                    prev
                },
            },
        },
    decreases decls.len(),
{
    lemma_specificity_ge_refl();
    if decls.len() > 0 {
        lemma_fold_decls_find(prev, ms, decls.drop_last(), p);
    }
}

proof fn lemma_specificity_ge_refl()
    ensures
        forall|a: Specificity| spec_specificity_ge(a, a),
{
}

proof fn lemma_specificity_ge_total()
    ensures
        forall|a: Specificity, b: Specificity| spec_specificity_ge(a, b) || spec_specificity_ge(b, a),
{
}

} // verus!
