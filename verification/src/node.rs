//! The generic document node.
//!
//! Every ambiguously shaped upstream collection is represented by exactly one
//! variant of [`Node`]: a string-keyed object, an ordered list, a scalar, or
//! null for absence. Downstream code only consumes this type, and reads it
//! through defensive accessors: a mismatched shape yields nothing rather than
//! an error.

use vstd::prelude::*;

verus! {

use crate::numeric::{Fixed, spec_fixed_from_int, spec_parse_fixed};
use crate::numeric::parse_fixed;
use crate::text::{spec_nat_chars, str_eq, str_to_chars, u64_to_string};

/// A leaf value: text, a whole number, or a fixed-point number.
#[derive(Debug)]
pub enum Scalar {
    Text(String),
    Int(i64),
    Dec(Fixed),
}

/// A document value: object, list, scalar, or null.
#[derive(Debug)]
pub enum Node {
    Object(Vec<(String, Node)>),
    List(Vec<Node>),
    Scalar(Scalar),
    Null,
}

/// The value under the first field named `key`, if any.
pub open spec fn spec_field(fields: Seq<(String, Node)>, key: Seq<char>) -> Option<Node>
    decreases fields.len(),
{
    if fields.len() == 0 {
        None
    } else if fields[0].0@ == key {
        Some(fields[0].1)
    } else {
        spec_field(fields.skip(1), key)
    }
}

/// Object field access; anything but an object yields nothing.
pub open spec fn spec_get(n: Node, key: Seq<char>) -> Option<Node> {
    match n {
        Node::Object(fields) => spec_field(fields@, key),
        _ => None,
    }
}

/// The text of a textual scalar.
pub open spec fn spec_as_text(n: Node) -> Option<Seq<char>> {
    match n {
        Node::Scalar(Scalar::Text(s)) => Some(s@),
        _ => None,
    }
}

/// The value of a whole-number scalar.
pub open spec fn spec_as_int(n: Node) -> Option<int> {
    match n {
        Node::Scalar(Scalar::Int(i)) => Some(i as int),
        _ => None,
    }
}

/// The elements of a list.
pub open spec fn spec_as_list(n: Node) -> Option<Seq<Node>> {
    match n {
        Node::List(items) => Some(items@),
        _ => None,
    }
}

/// The fields of an object.
pub open spec fn spec_as_object(n: Node) -> Option<Seq<(String, Node)>> {
    match n {
        Node::Object(fields) => Some(fields@),
        _ => None,
    }
}

/// The numeric value of a scalar node: whole numbers are widened, text is
/// parsed as a plain decimal number, fixed-point values pass through.
pub open spec fn spec_coerce(s: Scalar) -> Option<Fixed> {
    match s {
        Scalar::Int(i) => Some(spec_fixed_from_int(i as int)),
        Scalar::Dec(d) => Some(d),
        Scalar::Text(t) => spec_parse_fixed(t@),
    }
}

/// The numeric reading of a node; anything but a numeric-looking scalar
/// yields nothing.
pub open spec fn spec_as_number(n: Node) -> Option<Fixed> {
    match n {
        Node::Scalar(s) => spec_coerce(s),
        _ => None,
    }
}

/// The uniform iteration view of a node: an object yields its (key, value)
/// pairs in order, a list yields (index rendered in decimal, element) pairs,
/// and anything else yields nothing.
pub open spec fn spec_entries(n: Node) -> Seq<(Seq<char>, Node)> {
    match n {
        Node::Object(fields) => fields@.map_values(|p: (String, Node)| (p.0@, p.1)),
        Node::List(items) => Seq::new(items@.len(), |i: int| (spec_nat_chars(i as nat), items@[i])),
        _ => Seq::empty(),
    }
}

impl Node {
    /// Looks a field up in an object; any other shape, or a missing field,
    /// yields nothing.
    pub fn get<'a>(&'a self, key: &str) -> (r: Option<&'a Node>)
        ensures
            match r {
                Some(x) => spec_get(*self, key@) == Some(*x),
                None => spec_get(*self, key@) is None,
            },
    {
        match self {
            Node::Object(fields) => {
                let mut i: usize = 0;
                proof {
                    assert(fields@.skip(0) =~= fields@);
                }
                while i < fields.len()
                    invariant
                        i <= fields@.len(),
                        spec_field(fields@.skip(i as int), key@) == spec_field(fields@, key@),
                        spec_get(*self, key@) == spec_field(fields@, key@),
                    decreases fields@.len() - i,
                {
                    let ghost rest = fields@.skip(i as int);
                    if str_eq(fields[i].0.as_str(), key) {
                        proof {
                            assert(rest.len() > 0);
                            assert(rest[0] == fields@[i as int]);
                            assert(spec_field(rest, key@) == Some(rest[0].1));
                            assert(spec_get(*self, key@) == spec_field(fields@, key@));
                        }
                        let res = &fields[i].1;
                        assert(*res == fields@[i as int].1);
                        return Some(res);
                    }
                    proof {
                        assert(rest[0] == fields@[i as int]);
                        assert(rest.skip(1) =~= fields@.skip(i + 1));
                    }
                    i = i + 1;
                }
                proof {
                    assert(fields@.skip(fields@.len() as int) =~= Seq::<(String, Node)>::empty());
                }
                None
            },
            _ => None,
        }
    }

    /// The node's text, when it is a textual scalar.
    pub fn as_text<'a>(&'a self) -> (r: Option<&'a String>)
        ensures
            match r {
                Some(s) => spec_as_text(*self) == Some(s@),
                None => spec_as_text(*self) is None,
            },
    {
        match self {
            Node::Scalar(Scalar::Text(s)) => Some(s),
            _ => None,
        }
    }

    /// The node's value, when it is a whole-number scalar.
    pub fn as_int(&self) -> (r: Option<i64>)
        ensures
            match r {
                Some(i) => spec_as_int(*self) == Some(i as int),
                None => spec_as_int(*self) is None,
            },
    {
        match self {
            Node::Scalar(Scalar::Int(i)) => Some(*i),
            _ => None,
        }
    }

    /// The node's elements, when it is a list.
    pub fn as_list<'a>(&'a self) -> (r: Option<&'a Vec<Node>>)
        ensures
            match r {
                Some(items) => spec_as_list(*self) == Some(items@),
                None => spec_as_list(*self) is None,
            },
    {
        match self {
            Node::List(items) => Some(items),
            _ => None,
        }
    }

    /// The node's fields, when it is an object.
    pub fn as_object<'a>(&'a self) -> (r: Option<&'a Vec<(String, Node)>>)
        ensures
            match r {
                Some(fields) => spec_as_object(*self) == Some(fields@),
                None => spec_as_object(*self) is None,
            },
    {
        match self {
            Node::Object(fields) => Some(fields),
            _ => None,
        }
    }

    /// The node's numeric reading, when it has one.
    pub fn as_number(&self) -> (r: Option<Fixed>)
        ensures
            r == spec_as_number(*self),
    {
        match self {
            Node::Scalar(s) => coerce(s),
            _ => None,
        }
    }

    /// How many (key, value) pairs the uniform iteration yields.
    pub fn entry_count(&self) -> (r: usize)
        ensures
            r == spec_entries(*self).len(),
    {
        match self {
            Node::Object(fields) => fields.len(),
            Node::List(items) => items.len(),
            _ => 0,
        }
    }

    /// The key of the `i`-th pair of the uniform iteration.
    pub fn entry_key(&self, i: usize) -> (r: String)
        requires
            i < spec_entries(*self).len(),
        ensures
            r@ == spec_entries(*self)[i as int].0,
    {
        match self {
            Node::Object(fields) => fields[i].0.clone(),
            Node::List(_) => u64_to_string(i as u64),
            _ => {
                proof {
                    assert(false);
                }
                String::new()
            },
        }
    }

    /// The value of the `i`-th pair of the uniform iteration.
    pub fn entry_value<'a>(&'a self, i: usize) -> (r: &'a Node)
        requires
            i < spec_entries(*self).len(),
        ensures
            *r == spec_entries(*self)[i as int].1,
    {
        match self {
            Node::Object(fields) => &fields[i].1,
            Node::List(items) => &items[i],
            _ => {
                proof {
                    assert(false);
                }
                self
            },
        }
    }
}

/// Coerces a scalar to a numeric value: whole numbers are widened (an
/// unrepresentable magnitude becomes zero), fixed-point values pass through,
/// and text is parsed as a plain decimal number.
pub fn coerce(s: &Scalar) -> (r: Option<Fixed>)
    ensures
        r == spec_coerce(*s),
{
    match s {
        Scalar::Int(i) => Some(Fixed::from_int(*i)),
        Scalar::Dec(d) => Some(*d),
        Scalar::Text(t) => {
            let v = str_to_chars(t.as_str());
            parse_fixed(&v)
        },
    }
}

/// The three ambiguous encodings of one logical collection iterate alike: a
/// list and the object keyed by the list's decimal indices yield the same
/// (key, value) pairs, and the null stand-in for an absent collection yields
/// exactly what an empty list or object yields, namely nothing.
pub proof fn lemma_uniform_iteration(items: Vec<Node>, fields: Vec<(String, Node)>)
    requires
        fields@.len() == items@.len(),
        forall|i: int|
            0 <= i < items@.len() ==> (#[trigger] fields@[i]).0@ == spec_nat_chars(i as nat)
                && fields@[i].1 == items@[i],
    ensures
        spec_entries(Node::Object(fields)) == spec_entries(Node::List(items)),
        spec_entries(Node::Null) == Seq::<(Seq<char>, Node)>::empty(),
        items@.len() == 0 ==> spec_entries(Node::List(items)) == spec_entries(Node::Null),
        fields@.len() == 0 ==> spec_entries(Node::Object(fields)) == spec_entries(Node::Null),
{
    assert(spec_entries(Node::Object(fields)) =~= spec_entries(Node::List(items)));
    assert(spec_entries(Node::Null) =~= Seq::<(Seq<char>, Node)>::empty());
    if items@.len() == 0 {
        assert(spec_entries(Node::List(items)) =~= spec_entries(Node::Null));
    }
}

} // verus!
