//! Paths: where in a schema a change is.
//!
//! A path is the empty text for the root, or a row of segments, each a dot
//! followed by what names the step: a property's name, the position of an
//! item as a decimal number, `?` for the items of an array taken together,
//! `<additionalProperties>`, or `<anyOf:j>` for branch `j` of an `anyOf`.

use vstd::prelude::*;

verus! {

/// The character of a decimal digit.
pub open spec fn digit(d: int) -> char {
    if d == 0 {
        '0'
    } else if d == 1 {
        '1'
    } else if d == 2 {
        '2'
    } else if d == 3 {
        '3'
    } else if d == 4 {
        '4'
    } else if d == 5 {
        '5'
    } else if d == 6 {
        '6'
    } else if d == 7 {
        '7'
    } else if d == 8 {
        '8'
    } else {
        '9'
    }
}

/// The decimal digits of a number, without leading zeros.
pub open spec fn decimal(n: nat) -> Seq<char>
    decreases n,
{
    if n < 10 {
        seq![digit(n as int)]
    } else {
        decimal(n / 10).push(digit((n % 10) as int))
    }
}

/// One step of a path.
pub ghost enum Segment {
    /// Into the property of this name.
    Property(Seq<char>),
    /// Into the item at this position.
    Index(nat),
    /// Into the items of an array, taken together.
    AnyItem,
    /// Into the schema for undeclared properties.
    AdditionalProperties,
    /// Into this branch of an `anyOf`.
    AnyOf(nat),
}

/// The text of a segment.
pub open spec fn segment_text(segment: Segment) -> Seq<char> {
    match segment {
        Segment::Property(name) => "."@ + name,
        Segment::Index(i) => "."@ + decimal(i),
        Segment::AnyItem => ".?"@,
        Segment::AdditionalProperties => ".<additionalProperties>"@,
        Segment::AnyOf(j) => ".<anyOf:"@ + decimal(j) + ">"@,
    }
}

/// The text of a row of segments.
pub open spec fn path_text(segments: Seq<Segment>) -> Seq<char>
    decreases segments.len(),
{
    if segments.len() == 0 {
        Seq::empty()
    } else {
        path_text(segments.drop_last()) + segment_text(segments.last())
    }
}

/// Whether a text is a path: the text of some row of segments.
pub open spec fn is_path(text: Seq<char>) -> bool {
    exists|segments: Seq<Segment>| path_text(segments) == text
}

/// The path `parent` extended by one segment.
pub open spec fn extend(parent: Seq<char>, segment: Segment) -> Seq<char> {
    parent + segment_text(segment)
}

/// The empty text is a path.
pub proof fn lemma_root_is_path()
    ensures
        is_path(Seq::<char>::empty()),
{
    assert(path_text(Seq::<Segment>::empty()) == Seq::<char>::empty());
}

/// A path extended by a segment is a path.
pub proof fn lemma_extend_is_path(parent: Seq<char>, segment: Segment)
    requires
        is_path(parent),
    ensures
        is_path(extend(parent, segment)),
{
    let segments = choose|segments: Seq<Segment>| path_text(segments) == parent;
    let longer = segments.push(segment);
    assert(longer.drop_last() =~= segments);
    assert(path_text(longer) == extend(parent, segment));
}

/// The text of one decimal digit.
fn digit_text(d: usize) -> (r: &'static str)
    requires
        d < 10,
    ensures
        r@ == seq![digit(d as int)],
{
    proof {
        reveal_strlit("0");
        reveal_strlit("1");
        reveal_strlit("2");
        reveal_strlit("3");
        reveal_strlit("4");
        reveal_strlit("5");
        reveal_strlit("6");
        reveal_strlit("7");
        reveal_strlit("8");
        reveal_strlit("9");
    }
    let r = if d == 0 {
        "0"
    } else if d == 1 {
        "1"
    } else if d == 2 {
        "2"
    } else if d == 3 {
        "3"
    } else if d == 4 {
        "4"
    } else if d == 5 {
        "5"
    } else if d == 6 {
        "6"
    } else if d == 7 {
        "7"
    } else if d == 8 {
        "8"
    } else {
        "9"
    };
    assert(r@ =~= seq![digit(d as int)]);
    r
}

/// Appends the decimal digits of `n` to `out`.
pub fn push_decimal(out: &mut String, n: usize)
    ensures
        final(out)@ == old(out)@ + decimal(n as nat),
    decreases n,
{
    if n < 10 {
        out.append(digit_text(n));
        assert(out@ =~= old(out)@ + decimal(n as nat));
    } else {
        push_decimal(out, n / 10);
        out.append(digit_text(n % 10));
        assert(out@ =~= old(out)@ + decimal(n as nat));
    }
}

/// The path of the property `name` under `parent`.
pub fn property_path(parent: &str, name: &str) -> (r: String)
    ensures
        r@ == extend(parent@, Segment::Property(name@)),
{
    let mut out = String::from_str(parent);
    out.append(".");
    out.append(name);
    assert(out@ =~= extend(parent@, Segment::Property(name@)));
    out
}

/// The path of the item at position `i` under `parent`.
pub fn index_path(parent: &str, i: usize) -> (r: String)
    ensures
        r@ == extend(parent@, Segment::Index(i as nat)),
{
    let mut out = String::from_str(parent);
    out.append(".");
    push_decimal(&mut out, i);
    assert(out@ =~= extend(parent@, Segment::Index(i as nat)));
    out
}

/// The path of the items of an array under `parent`.
pub fn any_item_path(parent: &str) -> (r: String)
    ensures
        r@ == extend(parent@, Segment::AnyItem),
{
    let mut out = String::from_str(parent);
    out.append(".?");
    out
}

/// The path of the schema for undeclared properties under `parent`.
pub fn additional_properties_path(parent: &str) -> (r: String)
    ensures
        r@ == extend(parent@, Segment::AdditionalProperties),
{
    let mut out = String::from_str(parent);
    out.append(".<additionalProperties>");
    out
}

/// The path of branch `j` of the `anyOf` under `parent`.
pub fn any_of_path(parent: &str, j: usize) -> (r: String)
    ensures
        r@ == extend(parent@, Segment::AnyOf(j as nat)),
{
    let mut out = String::from_str(parent);
    out.append(".<anyOf:");
    push_decimal(&mut out, j);
    out.append(">");
    assert(out@ =~= extend(parent@, Segment::AnyOf(j as nat)));
    out
}

} // verus!
