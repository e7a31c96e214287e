//! The document tree and its mathematical model.

use vstd::prelude::*;

verus! {

/// A node of a document.
#[derive(Debug, PartialEq, Eq)]
pub enum Value {
    /// The null value.
    Null,
    /// A boolean.
    Bool(bool),
    /// A signed integer.
    Integer(i64),
    /// A floating-point number, held by its IEEE-754 bit pattern.
    Float(u64),
    /// A string.
    String(String),
    /// An ordered list of values.
    Sequence(Vec<Value>),
    /// An ordered list of keyed values. A key stands for the first entry
    /// that bears it.
    Mapping(Vec<Entry>),
    /// A value that carries a tag.
    Tagged(String, Box<Value>),
}

/// One keyed value of a mapping.
#[derive(Debug, PartialEq, Eq)]
pub struct Entry {
    /// The key, as written.
    pub key: String,
    /// What the key holds.
    pub value: Value,
}

/// The mathematical model of a [`Value`]: the same tree, with strings as
/// sequences of characters and lists as sequences.
pub enum Node {
    /// The null value.
    Null,
    /// A boolean.
    Bool(bool),
    /// A signed integer.
    Integer(i64),
    /// A floating-point number, as its bit pattern.
    Float(u64),
    /// A string.
    String(Seq<char>),
    /// The nodes of a list, in order.
    Sequence(Seq<Node>),
    /// The fields of a mapping, in order.
    Mapping(Fields),
    /// A tag and the node that carries it.
    Tagged(Seq<char>, Box<Node>),
}

/// The model of a mapping: its keys and their nodes, in order.
pub type Fields = Seq<(Seq<char>, Node)>;

/// The keyed nodes that a list of entries stands for.
pub open spec fn fields_of(entries: Seq<Entry>) -> Fields {
    Seq::new(entries.len(), |i: int| (entries[i].key@, entries[i].value@))
}

/// The keys of a mapping, in order.
pub open spec fn keys_of(fields: Fields) -> Seq<Seq<char>> {
    Seq::new(fields.len(), |i: int| fields[i].0)
}

impl Value {
    /// The node that this value stands for.
    pub open spec fn node(&self) -> Node
        decreases self,
    {
        match self {
            Value::Null => Node::Null,
            Value::Bool(b) => Node::Bool(*b),
            Value::Integer(n) => Node::Integer(*n),
            Value::Float(bits) => Node::Float(*bits),
            Value::String(s) => Node::String(s@),
            Value::Sequence(items) => Node::Sequence(
                Seq::new(
                    items.len() as nat,
                    |i: int|
                        if 0 <= i < items.len() {
                            items[i].node()
                        } else {
                            Node::Null
                        },
                ),
            ),
            Value::Mapping(entries) => Node::Mapping(
                Seq::new(
                    entries.len() as nat,
                    |i: int|
                        if 0 <= i < entries.len() {
                            (entries[i].key@, entries[i].value.node())
                        } else {
                            (Seq::empty(), Node::Null)
                        },
                ),
            ),
            Value::Tagged(tag, inner) => Node::Tagged(tag@, Box::new(inner.node())),
        }
    }
}

impl View for Value {
    type V = Node;

    open spec fn view(&self) -> Node {
        self.node()
    }
}

impl Value {
    /// A deep copy of this value; `clone` returns the same.
    pub fn duplicate(&self) -> (r: Value)
        ensures
            r@ == self@,
        decreases self,
    {
        match self {
            Value::Null => Value::Null,
            Value::Bool(b) => Value::Bool(*b),
            Value::Integer(n) => Value::Integer(*n),
            Value::Float(bits) => Value::Float(*bits),
            Value::String(s) => Value::String(s.clone()),
            Value::Sequence(items) => {
                let mut copy: Vec<Value> = Vec::new();
                let mut i: usize = 0;
                while i < items.len()
                    invariant
                        i <= items.len(),
                        copy.len() == i,
                        self == Value::Sequence(*items),
                        forall|j: int| 0 <= j < i ==> copy[j]@ == items[j]@,
                    decreases items.len() - i,
                {
                    assert(decreases_to!(self => self->Sequence_0));
                    assert(decreases_to!(self->Sequence_0 => self->Sequence_0[i as int]));
                    copy.push(items[i].duplicate());
                    i += 1;
                }
                assert(Value::Sequence(copy).node()->Sequence_0 =~= self.node()->Sequence_0);
                Value::Sequence(copy)
            },
            Value::Mapping(entries) => {
                let mut copy: Vec<Entry> = Vec::new();
                let mut i: usize = 0;
                while i < entries.len()
                    invariant
                        i <= entries.len(),
                        copy.len() == i,
                        self == Value::Mapping(*entries),
                        forall|j: int|
                            0 <= j < i ==> copy[j].key@ == entries[j].key@ && copy[j].value@
                                == entries[j].value@,
                    decreases entries.len() - i,
                {
                    assert(decreases_to!(self => self->Mapping_0));
                    assert(decreases_to!(self->Mapping_0 => self->Mapping_0[i as int]));
                    assert(decreases_to!(self->Mapping_0[i as int] => self->Mapping_0[i as int].value));
                    copy.push(
                        Entry { key: entries[i].key.clone(), value: entries[i].value.duplicate() },
                    );
                    i += 1;
                }
                assert(Value::Mapping(copy).node()->Mapping_0 =~= self.node()->Mapping_0);
                Value::Mapping(copy)
            },
            Value::Tagged(tag, inner) => Value::Tagged(tag.clone(), Box::new(inner.duplicate())),
        }
    }
}

impl Clone for Value {
    fn clone(&self) -> (r: Self)
        ensures
            r@ == self@,
    {
        self.duplicate()
    }
}

impl Clone for Entry {
    fn clone(&self) -> (r: Self)
        ensures
            r.key@ == self.key@,
            r.value@ == self.value@,
    {
        Entry { key: self.key.clone(), value: self.value.duplicate() }
    }
}

/// A mapping stands for the fields of its entries.
pub proof fn lemma_mapping_view(entries: Vec<Entry>)
    ensures
        Value::Mapping(entries)@ == Node::Mapping(fields_of(entries@)),
{
    assert(Value::Mapping(entries).node()->Mapping_0 =~= fields_of(entries@));
}

} // verus!
