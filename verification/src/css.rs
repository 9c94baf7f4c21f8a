//! The stylesheet model: rules, selectors, declarations and values.

use vstd::prelude::*;

verus! {

/// An RGBA color with 8-bit channels.
#[derive(Clone, Copy, PartialEq, Eq, Structural, Debug)]
pub struct Color {
    pub r: u8,
    pub g: u8,
    pub b: u8,
    pub a: u8,
}

/// The value of one declaration: a keyword, a pixel length, or a color.
#[derive(Debug)]
pub enum Value {
    Keyword(String),
    Length(u32),
    ColorValue(Color),
}

impl Value {
    /// True when the value is the keyword `auto`.
    pub open spec fn spec_is_auto(self) -> bool {
        match self {
            Value::Keyword(k) => k@ == "auto"@,
            _ => false,
        }
    }

    pub fn is_auto(&self) -> (r: bool)
        ensures
            r == self.spec_is_auto(),
    {
        match self {
            Value::Keyword(k) => {
                let auto: String = "auto".to_owned();
                *k == auto
            },
            _ => false,
        }
    }

    /// The length of the value in pixels; non-lengths count as 0.
    pub open spec fn spec_to_px(self) -> u32 {
        match self {
            Value::Length(l) => l,
            _ => 0,
        }
    }

    pub fn to_px(&self) -> (r: u32)
        ensures
            r == self.spec_to_px(),
    {
        match self {
            Value::Length(l) => *l,
            _ => 0,
        }
    }

    /// An explicit copy with a proved result (a derived clone carries no contract).
    pub fn dup(&self) -> (r: Value)
        ensures
            r == *self,
    {
        match self {
            Value::Keyword(k) => Value::Keyword(k.clone()),
            Value::Length(l) => Value::Length(*l),
            Value::ColorValue(c) => Value::ColorValue(*c),
        }
    }
}

impl PartialEq for Value {
    fn eq(&self, other: &Value) -> (r: bool) {
        match (self, other) {
            (Value::Keyword(a), Value::Keyword(b)) => *a == *b,
            (Value::Length(a), Value::Length(b)) => *a == *b,
            (Value::ColorValue(a), Value::ColorValue(b)) => *a == *b,
            _ => false,
        }
    }
}

impl vstd::std_specs::cmp::PartialEqSpecImpl for Value {
    open spec fn obeys_eq_spec() -> bool {
        true
    }

    open spec fn eq_spec(&self, other: &Value) -> bool {
        match (*self, *other) {
            (Value::Keyword(a), Value::Keyword(b)) => a@ == b@,
            (Value::Length(a), Value::Length(b)) => a == b,
            (Value::ColorValue(a), Value::ColorValue(b)) => a == b,
            _ => false,
        }
    }
}

/// One `property: value` pair.
pub struct Declaration {
    pub name: String,
    pub value: Value,
}

/// A simple selector: an optional tag name, an optional id, and a set of
/// class names, all of which must match for the selector to match a node.
pub struct SimpleSelector {
    pub tag_name: Option<String>,
    pub id: Option<String>,
    pub classes: Vec<String>,
}

/// One style rule: a selector list and the declarations it applies.
pub struct Rule {
    pub selectors: Vec<SimpleSelector>,
    pub declarations: Vec<Declaration>,
}

/// An ordered sequence of rules; source order is the tiebreak of last resort.
pub struct Stylesheet {
    pub rules: Vec<Rule>,
}

/// A selector's match strength: counts of id, class and tag components,
/// compared lexicographically in that order.
#[derive(Clone, Copy, PartialEq, Eq, Structural, Debug)]
pub struct Specificity {
    pub ids: usize,
    pub classes: usize,
    pub tags: usize,
}

/// Lexicographic order on specificities: ids, then classes, then tags.
pub open spec fn spec_specificity_ge(a: Specificity, b: Specificity) -> bool {
    ||| a.ids > b.ids
    ||| (a.ids == b.ids && a.classes > b.classes)
    ||| (a.ids == b.ids && a.classes == b.classes && a.tags >= b.tags)
}

pub fn specificity_ge(a: Specificity, b: Specificity) -> (r: bool)
    ensures
        r == spec_specificity_ge(a, b),
{
    if a.ids != b.ids {
        a.ids > b.ids
    } else if a.classes != b.classes {
        a.classes > b.classes
    } else {
        a.tags >= b.tags
    }
}

impl SimpleSelector {
    pub open spec fn spec_specificity(self) -> Specificity {
        Specificity {
            ids: if self.id is Some { 1 } else { 0 },
            classes: self.classes@.len() as usize,
            tags: if self.tag_name is Some { 1 } else { 0 },
        }
    }

    pub fn specificity(&self) -> (r: Specificity)
        ensures
            r == self.spec_specificity(),
    {
        Specificity {
            ids: if self.id.is_some() { 1 } else { 0 },
            classes: self.classes.len(),
            tags: if self.tag_name.is_some() { 1 } else { 0 },
        }
    }
}

} // verus!
