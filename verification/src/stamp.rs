//! Stamping JSX opening elements with the place they were written.
//!
//! A lowercase plain tag (`<div>`, `<my-widget>`) is a host DOM node and gets
//! `data-pb-loc="<relpath>:<line>:<col>"`; an uppercase plain tag (`<Hero>`) is a
//! component call site and gets `data-pb-comp` with the same value; member
//! (`<Foo.Bar>`) and namespaced (`<svg:rect>`) tags are never stamped. The stamp is
//! appended after the element's own attributes and is never added twice.
//!
//! An element is described by its tag name and its attributes; the source
//! position of its opening `<` (1-based line, 0-based column) is looked up by the
//! caller and handed in.

use vstd::prelude::*;
use crate::text::{push_char, str_eq};

verus! {

/// Attribute carried by a host element.
pub const ATTR_HOST: &'static str = "data-pb-loc";

/// Prop carried by a component call site.
pub const ATTR_COMP: &'static str = "data-pb-comp";

/// The tag name of a JSX opening element.
pub enum ElementName {
    /// A plain identifier: `div`, `my-widget`, `Hero`.
    Ident(String),
    /// A member expression: `Foo.Bar`.
    Member,
    /// A namespaced name: `svg:rect`.
    Namespaced,
}

/// One attribute of a JSX opening element.
pub enum Attribute {
    /// An attribute with a plain identifier name; `value` is its string-literal
    /// value, when it has one.
    Named { name: String, value: Option<String> },
    /// A spread (`{...props}`) or an attribute with a namespaced name.
    Other,
}

/// A JSX opening element: its tag name and its attributes, in order.
pub struct OpeningElement {
    pub name: ElementName,
    pub attrs: Vec<Attribute>,
}

/// An attribute as (name, string value): the name is `None` unless it is a plain
/// identifier.
pub open spec fn attr_view(a: Attribute) -> (Option<Seq<char>>, Option<Seq<char>>) {
    match a {
        Attribute::Named { name, value } => (
            Some(name@),
            match value {
                Some(v) => Some(v@),
                None => None,
            },
        ),
        Attribute::Other => (None, None),
    }
}

pub open spec fn attrs_view(attrs: Seq<Attribute>) -> Seq<(Option<Seq<char>>, Option<Seq<char>>)> {
    attrs.map_values(|a: Attribute| attr_view(a))
}

pub open spec fn is_ascii_lower(c: char) -> bool {
    'a' <= c && c <= 'z'
}

/// The stamp attribute for a tag name, or `None` when the tag is skipped.
pub open spec fn stamp_attr_spec(name: ElementName) -> Option<Seq<char>> {
    match name {
        ElementName::Ident(s) => if s@.len() == 0 {
            None
        } else if is_ascii_lower(s@[0]) {
            Some(ATTR_HOST@)
        } else {
            Some(ATTR_COMP@)
        },
        _ => None,
    }
}

/// Does some attribute carry the plain name `attr`?
pub open spec fn has_attr_spec(attrs: Seq<(Option<Seq<char>>, Option<Seq<char>>)>, attr: Seq<char>) -> bool {
    exists|i: int| 0 <= i < attrs.len() && (#[trigger] attrs[i]).0 == Some(attr)
}

/// The decimal digit character for `d < 10`.
pub open spec fn digit_char(d: nat) -> char {
    (d + 48) as char
}

/// The decimal representation of `n`, without leading zeros.
pub open spec fn decimal(n: nat) -> Seq<char>
    decreases n,
{
    if n < 10 {
        seq![digit_char(n)]
    } else {
        decimal(n / 10).push(digit_char(n % 10))
    }
}

/// `<rel>:<line>:<col>`.
pub open spec fn loc_text(rel: Seq<char>, line: nat, col: nat) -> Seq<char> {
    rel + seq![':'] + decimal(line) + seq![':'] + decimal(col)
}

/// The attribute an element is due: `None` when stamping is off, there is no
/// path, the tag is skipped, or the element already carries that attribute.
pub open spec fn stamp_due(
    enabled: bool,
    rel: Option<Seq<char>>,
    name: ElementName,
    attrs: Seq<(Option<Seq<char>>, Option<Seq<char>>)>,
) -> Option<Seq<char>> {
    if !enabled || rel is None {
        None
    } else {
        match stamp_attr_spec(name) {
            None => None,
            Some(a) => if has_attr_spec(attrs, a) {
                None
            } else {
                Some(a)
            },
        }
    }
}

/// The stamp that an element gets: the attribute's name and value, or `None`.
/// `col0` is the 0-based column of the opening `<`; the stamp carries it 1-based.
pub open spec fn stamp_for(
    enabled: bool,
    rel: Option<Seq<char>>,
    name: ElementName,
    attrs: Seq<(Option<Seq<char>>, Option<Seq<char>>)>,
    line: nat,
    col0: nat,
) -> Option<(Seq<char>, Seq<char>)> {
    match stamp_due(enabled, rel, name, attrs) {
        None => None,
        Some(a) => Some((a, loc_text(rel->Some_0, line, col0 + 1))),
    }
}

/// The stamp attribute for a tag name: `data-pb-loc` for a lowercase plain tag,
/// `data-pb-comp` for any other plain tag, `None` for member, namespaced and
/// empty names.
pub fn stamp_attr(name: &ElementName) -> (res: Option<&'static str>)
    ensures
        match res {
            Some(a) => stamp_attr_spec(*name) == Some(a@),
            None => stamp_attr_spec(*name) is None,
        },
{
    match name {
        ElementName::Ident(s) => {
            let t = s.as_str();
            if t.is_empty() {
                None
            } else {
                let c = t.get_char(0);
                if 'a' <= c && c <= 'z' {
                    Some(ATTR_HOST)
                } else {
                    Some(ATTR_COMP)
                }
            }
        },
        _ => None,
    }
}

/// Idempotency guard: is this element already stamped with `attr`?
pub fn has_loc_attr(el: &OpeningElement, attr: &str) -> (res: bool)
    ensures
        res == has_attr_spec(attrs_view(el.attrs@), attr@),
{
    let ghost av = attrs_view(el.attrs@);
    let mut i: usize = 0;
    while i < el.attrs.len()
        invariant
            i <= el.attrs.len(),
            av == attrs_view(el.attrs@),
            forall|j: int| 0 <= j < i ==> av[j].0 != Some(attr@),
        decreases el.attrs.len() - i,
    {
        match &el.attrs[i] {
            Attribute::Named { name, value: _ } => {
                if str_eq(name.as_str(), attr) {
                    assert(av[i as int].0 == Some(attr@));
                    return true;
                }
            },
            Attribute::Other => {},
        }
        i = i + 1;
    }
    false
}

/// Append the decimal representation of `n` to `s`.
pub fn push_decimal(s: &mut String, n: usize)
    ensures
        final(s)@ == old(s)@ + decimal(n as nat),
    decreases n,
{
    if n >= 10 {
        push_decimal(s, n / 10);
    }
    let d: u8 = (n % 10) as u8;
    let c: char = (48u8 + d) as char;
    assert(c == digit_char((n % 10) as nat));
    push_char(s, c);
    assert(final(s)@ =~= old(s)@ + decimal(n as nat));
}

/// Stamps the JSX opening elements of one file.
pub struct LocVisitor {
    /// Pre-resolved root-relative path; `None` means: stamp nothing for this file.
    rel: Option<String>,
    enabled: bool,
}

impl LocVisitor {
    /// The root-relative path the stamps carry, if any.
    pub closed spec fn rel_spec(self) -> Option<Seq<char>> {
        match self.rel {
            Some(r) => Some(r@),
            None => None,
        }
    }

    pub closed spec fn enabled_spec(self) -> bool {
        self.enabled
    }

    pub fn new(rel: Option<String>, enabled: bool) -> (v: Self)
        ensures
            v.rel_spec() == (match rel {
                Some(r) => Some(r@),
                None => None::<Seq<char>>,
            }),
            v.enabled_spec() == enabled,
    {
        LocVisitor { rel, enabled }
    }

    /// `<rel>:<line>:<col>` for an opening `<` at 1-based `line` and 0-based
    /// `col0`, the column given 1-based; `None` when there is no path.
    pub fn loc_value(&self, line: usize, col0: usize) -> (res: Option<String>)
        requires
            col0 < usize::MAX,
        ensures
            match res {
                Some(s) => self.rel_spec() matches Some(r) && s@ == loc_text(r, line as nat, col0 as nat + 1),
                None => self.rel_spec() is None,
            },
    {
        match &self.rel {
            None => None,
            Some(rel) => {
                let mut s = rel.clone();
                push_char(&mut s, ':');
                push_decimal(&mut s, line);
                push_char(&mut s, ':');
                push_decimal(&mut s, col0 + 1);
                assert(s@ =~= loc_text(rel@, line as nat, col0 as nat + 1));
                Some(s)
            },
        }
    }

    /// Is this element due a stamp? (Its position plays no part.)
    pub fn would_stamp(&self, el: &OpeningElement) -> (res: bool)
        ensures
            res == stamp_due(self.enabled_spec(), self.rel_spec(), el.name, attrs_view(el.attrs@))
                is Some,
    {
        if !self.enabled || self.rel.is_none() {
            return false;
        }
        match stamp_attr(&el.name) {
            Some(a) => !has_loc_attr(el, a),
            None => false,
        }
    }

    /// Stamp one opening element whose `<` stands at 1-based `line` and 0-based
    /// `col0`. The stamp, when there is one, is appended after every attribute
    /// the element already has, so a `{...spread}` cannot override it.
    pub fn visit_opening_element(&self, el: &mut OpeningElement, line: usize, col0: usize)
        requires
            col0 < usize::MAX,
        ensures
            final(el).name == old(el).name,
            match stamp_for(
                self.enabled_spec(),
                self.rel_spec(),
                old(el).name,
                attrs_view(old(el).attrs@),
                line as nat,
                col0 as nat,
            ) {
                None => final(el).attrs@ == old(el).attrs@,
                Some((a, v)) => {
                    &&& final(el).attrs@.len() == old(el).attrs@.len() + 1
                    &&& final(el).attrs@.take(old(el).attrs@.len() as int) == old(el).attrs@
                    &&& attr_view(final(el).attrs@.last()) == (Some(a), Some(v))
                },
            },
    {
        if !self.enabled || self.rel.is_none() {
            return;
        }
        let attr = match stamp_attr(&el.name) {
            Some(a) => a,
            None => {
                return;
            },
        };
        if has_loc_attr(el, attr) {
            return;
        }
        let value = match self.loc_value(line, col0) {
            Some(v) => v,
            None => {
                return;
            },
        };
        let ghost old_attrs = el.attrs@;
        el.attrs.push(Attribute::Named { name: attr.to_owned(), value: Some(value) });
        assert(el.attrs@.take(old_attrs.len() as int) =~= old_attrs);
    }
}

// ------------------------------------------------------------------- the laws

/// Stamping is idempotent: an element that carries the stamp it was given gets no
/// second one, wherever it is seen again.
pub proof fn law_stamp_is_idempotent(
    enabled: bool,
    rel: Option<Seq<char>>,
    name: ElementName,
    attrs: Seq<(Option<Seq<char>>, Option<Seq<char>>)>,
    line: nat,
    col0: nat,
    line2: nat,
    col2: nat,
)
    requires
        stamp_for(enabled, rel, name, attrs, line, col0) is Some,
    ensures
        ({
            let (a, v) = stamp_for(enabled, rel, name, attrs, line, col0)->Some_0;
            stamp_for(enabled, rel, name, attrs.push((Some(a), Some(v))), line2, col2) is None
        }),
{
    let (a, v) = stamp_for(enabled, rel, name, attrs, line, col0)->Some_0;
    let more = attrs.push((Some(a), Some(v)));
    assert(more[attrs.len() as int].0 == Some(a));
}

/// Host and component stamps never cross: a plain tag whose first character is an
/// ASCII lowercase letter gets `data-pb-loc` and never `data-pb-comp`; any other
/// plain tag gets `data-pb-comp` and never `data-pb-loc`.
pub proof fn law_host_and_component_never_cross(s: String)
    requires
        s@.len() > 0,
    ensures
        stamp_attr_spec(ElementName::Ident(s)) == Some(ATTR_HOST@) <==> is_ascii_lower(s@[0]),
        stamp_attr_spec(ElementName::Ident(s)) == Some(ATTR_COMP@) <==> !is_ascii_lower(s@[0]),
{
    reveal_strlit("data-pb-loc");
    reveal_strlit("data-pb-comp");
    assert(ATTR_HOST@.len() != ATTR_COMP@.len());
}

/// The number a string of decimal digits denotes (most significant first).
pub open spec fn numeral_value(s: Seq<char>) -> int
    decreases s.len(),
{
    if s.len() == 0 {
        0
    } else {
        numeral_value(s.drop_last()) * 10 + (s.last() as int - 48)
    }
}

/// A base-10 numeral: at least one digit `0`..=`9`, and no leading zero unless
/// it is the only digit.
pub open spec fn is_numeral(s: Seq<char>) -> bool {
    &&& s.len() > 0
    &&& forall|i: int| 0 <= i < s.len() ==> 48 <= #[trigger] s[i] as int <= 57
    &&& (s.len() == 1 || s[0] as int != 48)
}

/// `decimal(n)` is the base-10 numeral of `n`: digits only, no leading zero, and
/// reading its digits back gives `n`.
pub proof fn law_decimal_is_base_ten_numeral(n: nat)
    ensures
        is_numeral(decimal(n)),
        numeral_value(decimal(n)) == n,
    decreases n,
{
    let d = decimal(n);
    if n < 10 {
        assert(digit_char(n) as int == n + 48);
        assert(d.drop_last() =~= Seq::<char>::empty());
        assert(numeral_value(d.drop_last()) == 0);
    } else {
        let m = n / 10;
        law_decimal_is_base_ten_numeral(m);
        let p = decimal(m);
        let c = digit_char(n % 10);
        assert(c as int == n % 10 + 48);
        assert(d == p.push(c));
        assert(d.drop_last() =~= p);
        assert(numeral_value(d) == numeral_value(p) * 10 + (c as int - 48));
        assert(m * 10 + n % 10 == n);
        assert forall|i: int| 0 <= i < d.len() implies 48 <= #[trigger] d[i] as int <= 57 by {
            if i < p.len() {
                assert(d[i] == p[i]);
            }
        }
        assert(d[0] == p[0]);
        if p.len() == 1 {
            assert(p.drop_last() =~= Seq::<char>::empty());
            assert(numeral_value(p.drop_last()) == 0);
            assert(numeral_value(p) == p[0] as int - 48);
        }
    }
}

/// A stamp value reads back as `<rel>:<line>:<col>`: the path, a colon, the
/// numeral of `line`, a colon, the numeral of `col`.
pub proof fn law_loc_text_reads_back(rel: Seq<char>, line: nat, col: nat)
    ensures
        exists|a: Seq<char>, b: Seq<char>|
            {
                &&& is_numeral(a)
                &&& is_numeral(b)
                &&& numeral_value(a) == line
                &&& numeral_value(b) == col
                &&& loc_text(rel, line, col) == rel + seq![':'] + a + seq![':'] + b
            },
{
    law_decimal_is_base_ten_numeral(line);
    law_decimal_is_base_ten_numeral(col);
    let a = decimal(line);
    let b = decimal(col);
    assert(loc_text(rel, line, col) == rel + seq![':'] + a + seq![':'] + b);
}

/// An element that already carries its stamp attribute, at any position among its
/// attributes, is due no stamp.
pub proof fn law_stamp_held_anywhere_blocks(
    enabled: bool,
    rel: Option<Seq<char>>,
    name: ElementName,
    attrs: Seq<(Option<Seq<char>>, Option<Seq<char>>)>,
    i: int,
)
    requires
        0 <= i < attrs.len(),
        stamp_attr_spec(name) is Some,
        attrs[i].0 == stamp_attr_spec(name),
    ensures
        stamp_due(enabled, rel, name, attrs) is None,
{
    assert(attrs[i].0 == Some(stamp_attr_spec(name)->Some_0));
}

/// The guard sees an attribute at any position: it answers yes exactly when some
/// attribute, wherever it stands, has the plain name `attr`; so the answer does
/// not depend on the order of the attributes.
pub proof fn law_has_attr_any_position(
    attrs: Seq<(Option<Seq<char>>, Option<Seq<char>>)>,
    attr: Seq<char>,
    other: Seq<(Option<Seq<char>>, Option<Seq<char>>)>,
)
    ensures
        has_attr_spec(attrs, attr) <==> exists|i: int| 0 <= i < attrs.len() && attrs[i].0 == Some(attr),
        has_attr_spec(attrs + other, attr) == has_attr_spec(other + attrs, attr),
{
    let ab = attrs + other;
    let ba = other + attrs;
    if has_attr_spec(ab, attr) {
        let i = choose|i: int| 0 <= i < ab.len() && (#[trigger] ab[i]).0 == Some(attr);
        if i < attrs.len() {
            assert(ba[other.len() + i] == ab[i]);
        } else {
            assert(ba[i - attrs.len()] == ab[i]);
        }
    }
    if has_attr_spec(ba, attr) {
        let i = choose|i: int| 0 <= i < ba.len() && (#[trigger] ba[i]).0 == Some(attr);
        if i < other.len() {
            assert(ab[attrs.len() + i] == ba[i]);
        } else {
            assert(ab[i - other.len()] == ba[i]);
        }
    }
}

/// Which attribute a tag gets, by its first character's code point: `a` (97)
/// through `z` (122) make a host element, stamped `data-pb-loc`; any other first
/// character makes a component call site, stamped `data-pb-comp`; an empty,
/// member or namespaced name gets nothing.
pub proof fn law_stamp_attr_by_first_code_point(s: String)
    ensures
        s@.len() > 0 && 97 <= s@[0] as int <= 122 ==> stamp_attr_spec(ElementName::Ident(s))
            == Some("data-pb-loc"@),
        s@.len() > 0 && !(97 <= s@[0] as int <= 122) ==> stamp_attr_spec(ElementName::Ident(s))
            == Some("data-pb-comp"@),
        s@.len() == 0 ==> stamp_attr_spec(ElementName::Ident(s)) is None,
        stamp_attr_spec(ElementName::Member) is None,
        stamp_attr_spec(ElementName::Namespaced) is None,
{
    assert('a' as int == 97 && 'z' as int == 122);
    assert(ATTR_HOST@ == "data-pb-loc"@);
    assert(ATTR_COMP@ == "data-pb-comp"@);
}

/// Nothing is stamped while stamping is switched off, nor for a file without a
/// root-relative path, whatever the element.
pub proof fn law_nothing_when_off_or_pathless(
    enabled: bool,
    rel: Option<Seq<char>>,
    name: ElementName,
    attrs: Seq<(Option<Seq<char>>, Option<Seq<char>>)>,
)
    ensures
        !enabled ==> stamp_due(enabled, rel, name, attrs) is None,
        rel is None ==> stamp_due(enabled, rel, name, attrs) is None,
{
}

} // verus!
