use vstd::prelude::*;

use crate::util::error::SCError;
use crate::util::error::SCResult;
use crate::util::text::str_eq;

verus! {

/// A deserialized, in-memory tree representation of an XML node: its
/// tag name, its textual content, its attributes in order, and its
/// child nodes in order.
#[derive(Debug)]
pub struct XmlNode {
    pub name: String,
    pub content: String,
    pub attributes: Vec<(String, String)>,
    pub childs: Vec<XmlNode>,
}

/// The value of the first attribute with the given key, if any.
pub open spec fn attr_lookup(attrs: Seq<(String, String)>, key: Seq<char>) -> Option<Seq<char>>
    decreases attrs.len(),
{
    if attrs.len() == 0 {
        None
    } else if attrs.first().0@ == key {
        Some(attrs.first().1@)
    } else {
        attr_lookup(attrs.drop_first(), key)
    }
}

/// The first child with the given tag name, if any.
pub open spec fn child_lookup(childs: Seq<XmlNode>, name: Seq<char>) -> Option<XmlNode>
    decreases childs.len(),
{
    if childs.len() == 0 {
        None
    } else if childs.first().name@ == name {
        Some(childs.first())
    } else {
        child_lookup(childs.drop_first(), name)
    }
}

/// All children with the given tag name, in order.
pub open spec fn childs_named(childs: Seq<XmlNode>, name: Seq<char>) -> Seq<XmlNode>
    decreases childs.len(),
{
    if childs.len() == 0 {
        Seq::empty()
    } else if childs.first().name@ == name {
        seq![childs.first()] + childs_named(childs.drop_first(), name)
    } else {
        childs_named(childs.drop_first(), name)
    }
}

/// Indicates that the type can be parsed from an XML node.
pub trait FromXmlNode where Self: Sized {
    /// Parses one value from the given node.
    fn from_node(node: &XmlNode) -> SCResult<Self>;
}

impl XmlNode {
    /// Creates a new XML node builder with the given tag name.
    pub fn new(name: &str) -> (r: XmlNodeBuilder)
        ensures
            r.name@ == name@,
            r.content@ == ""@,
            r.attributes@.len() == 0,
            r.childs@.len() == 0,
    {
        XmlNodeBuilder::new(name)
    }

    /// Fetches the node's tag name.
    pub fn name(&self) -> (r: &str)
        ensures
            r@ == self.name@,
    {
        self.name.as_str()
    }

    /// Fetches the node's textual contents.
    pub fn content(&self) -> (r: &str)
        ensures
            r@ == self.content@,
    {
        self.content.as_str()
    }

    /// Fetches an attribute's value by key: the first attribute with
    /// that key, or an error naming the missing key.
    pub fn attribute(&self, key: &str) -> (r: SCResult<&str>)
        ensures
            match attr_lookup(self.attributes@, key@) {
                Some(v) => r is Ok && r.unwrap()@ == v,
                None => r matches Err(SCError::MissingAttribute(k)) && k@ == key@,
            },
    {
        let ghost attrs = self.attributes@;
        proof {
            assert(attrs.skip(0) =~= attrs);
        }
        let mut i: usize = 0;
        while i < self.attributes.len()
            invariant
                0 <= i <= attrs.len(),
                attrs == self.attributes@,
                attr_lookup(attrs, key@) == attr_lookup(attrs.skip(i as int), key@),
            decreases attrs.len() - i,
        {
            proof {
                assert(attrs.skip(i as int).first() == attrs[i as int]);
                assert(attrs.skip(i as int).drop_first() =~= attrs.skip(i + 1));
            }
            if str_eq(self.attributes[i].0.as_str(), key) {
                return Ok(self.attributes[i].1.as_str());
            }
            i += 1;
        }
        proof {
            assert(attrs.skip(attrs.len() as int) =~= Seq::<(String, String)>::empty());
        }
        Err(SCError::MissingAttribute(key.to_owned()))
    }

    /// Finds the first child element with the given tag name, or an
    /// error naming the missing child.
    pub fn child_by_name<'a>(&'a self, name: &str) -> (r: SCResult<&'a XmlNode>)
        ensures
            match child_lookup(self.childs@, name@) {
                Some(cv) => r is Ok && *r.unwrap() == cv,
                None => r matches Err(SCError::MissingChild(k)) && k@ == name@,
            },
    {
        let ghost cs = self.childs@;
        proof {
            assert(cs.skip(0) =~= cs);
        }
        let mut i: usize = 0;
        while i < self.childs.len()
            invariant
                0 <= i <= cs.len(),
                cs == self.childs@,
                child_lookup(cs, name@) == child_lookup(cs.skip(i as int), name@),
            decreases cs.len() - i,
        {
            proof {
                assert(cs.skip(i as int).first() == cs[i as int]);
                assert(cs.skip(i as int).drop_first() =~= cs.skip(i + 1));
            }
            if str_eq(self.childs[i].name.as_str(), name) {
                return Ok(&self.childs[i]);
            }
            i += 1;
        }
        proof {
            assert(cs.skip(cs.len() as int) =~= Seq::<XmlNode>::empty());
        }
        Err(SCError::MissingChild(name.to_owned()))
    }

    /// Fetches all child elements with the given tag name, in order.
    pub fn childs_by_name<'a>(&'a self, name: &str) -> (r: Vec<&'a XmlNode>)
        ensures
            r@.len() == childs_named(self.childs@, name@).len(),
            forall|k: int|
                0 <= k < r@.len() ==> *#[trigger] r@[k] == childs_named(self.childs@, name@)[k],
    {
        let ghost cs = self.childs@;
        proof {
            assert(cs.skip(0) =~= cs);
        }
        let mut r: Vec<&XmlNode> = Vec::new();
        let mut i: usize = 0;
        while i < self.childs.len()
            invariant
                0 <= i <= cs.len(),
                cs == self.childs@,
                childs_named(cs, name@) =~= r@.map_values(|c: &XmlNode| *c) + childs_named(
                    cs.skip(i as int),
                    name@,
                ),
            decreases cs.len() - i,
        {
            proof {
                assert(cs.skip(i as int).first() == cs[i as int]);
                assert(cs.skip(i as int).drop_first() =~= cs.skip(i + 1));
            }
            let ghost r_old = r@;
            if str_eq(self.childs[i].name.as_str(), name) {
                r.push(&self.childs[i]);
                proof {
                    assert(r@.map_values(|c: &XmlNode| *c) =~= r_old.map_values(|c: &XmlNode| *c)
                        + seq![cs[i as int]]);
                }
            }
            i += 1;
        }
        proof {
            assert(cs.skip(cs.len() as int) =~= Seq::<XmlNode>::empty());
            assert(r@.map_values(|c: &XmlNode| *c) =~= childs_named(cs, name@));
        }
        r
    }
}

/// A builder that makes the construction of new XML nodes convenient.
pub struct XmlNodeBuilder<'a> {
    pub name: &'a str,
    pub content: &'a str,
    pub attributes: Vec<(String, String)>,
    pub childs: Vec<XmlNode>,
}

impl<'a> XmlNodeBuilder<'a> {
    /// Creates a new XML node builder with the given tag name.
    pub fn new(name: &'a str) -> (r: Self)
        ensures
            r.name@ == name@,
            r.content@ == ""@,
            r.attributes@.len() == 0,
            r.childs@.len() == 0,
    {
        Self { name, content: "", attributes: Vec::new(), childs: Vec::new() }
    }

    /// Sets the tag name of the XML node.
    pub fn name(self, name: &'a str) -> (r: Self)
        ensures
            r.name@ == name@,
            r.content == self.content,
            r.attributes == self.attributes,
            r.childs == self.childs,
    {
        Self { name, ..self }
    }

    /// Sets the contents of the XML node.
    pub fn content(self, data: &'a str) -> (r: Self)
        ensures
            r.name == self.name,
            r.content@ == data@,
            r.attributes == self.attributes,
            r.childs == self.childs,
    {
        Self { content: data, ..self }
    }

    /// Adds the given attributes at the end, in order.
    pub fn attributes(self, attributes: Vec<(String, String)>) -> (r: Self)
        ensures
            r.name == self.name,
            r.content == self.content,
            r.attributes@ == self.attributes@ + attributes@,
            r.childs == self.childs,
    {
        let mut s = self;
        let mut attributes = attributes;
        s.attributes.append(&mut attributes);
        s
    }

    /// Adds one attribute at the end.
    pub fn attribute(self, key: &str, value: &str) -> (r: Self)
        ensures
            r.name == self.name,
            r.content == self.content,
            r.attributes@.len() == self.attributes@.len() + 1,
            forall|k: int|
                0 <= k < self.attributes@.len() ==> #[trigger] r.attributes@[k]
                    == self.attributes@[k],
            r.attributes@.last().0@ == key@,
            r.attributes@.last().1@ == value@,
            r.childs == self.childs,
    {
        let mut s = self;
        s.attributes.push((key.to_owned(), value.to_owned()));
        s
    }

    /// Adds the given children at the end, in order.
    pub fn childs(self, childs: Vec<XmlNode>) -> (r: Self)
        ensures
            r.name == self.name,
            r.content == self.content,
            r.attributes == self.attributes,
            r.childs@ == self.childs@ + childs@,
    {
        let mut s = self;
        let mut childs = childs;
        s.childs.append(&mut childs);
        s
    }

    /// Adds one child at the end.
    pub fn child(self, child: XmlNode) -> (r: Self)
        ensures
            r.name == self.name,
            r.content == self.content,
            r.attributes == self.attributes,
            r.childs@ == self.childs@.push(child),
    {
        let mut s = self;
        s.childs.push(child);
        s
    }

    /// Builds the XML node.
    pub fn build(self) -> (r: XmlNode)
        ensures
            r.name@ == self.name@,
            r.content@ == self.content@,
            r.attributes == self.attributes,
            r.childs == self.childs,
    {
        XmlNode {
            name: self.name.to_owned(),
            content: self.content.to_owned(),
            attributes: self.attributes,
            childs: self.childs,
        }
    }
}

} // verus!
