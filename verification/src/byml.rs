//! The document model of the binary-YAML resources the offline converters
//! read: a tree of nodes with typed accessors. Reading the binary
//! container itself is transport work and stays outside the library.

use vstd::prelude::*;

verus! {

/// Byte order of a binary document.
#[derive(Debug, Eq, PartialEq, Copy, Clone, Hash, Structural)]
pub enum Endian {
    Big,
    Little,
}

/// Asked for a node as a variant it does not have.
#[derive(Debug, PartialEq, Eq, Clone, Copy, Structural)]
pub struct TypeError;

/// The tag a node carries in the binary form.
#[derive(Debug, PartialEq, Eq, Clone, Copy, Structural)]
pub enum NodeType {
    String,
    Binary,
    Array,
    Hash,
    StringTable,
    Bool,
    Int,
    Float,
    UInt,
    Int64,
    UInt64,
    Double,
    Null,
}

/// A 32-bit floating value kept as its bits beside its byte order, so the
/// tree supports equality and hashing.
#[derive(Debug, PartialEq, Eq, Clone, Hash, Copy, Structural)]
pub struct Float(pub u32, pub Endian);

/// A 64-bit floating value kept as its bits beside its byte order.
#[derive(Debug, PartialEq, Eq, Clone, Hash, Copy, Structural)]
pub struct Double(pub u64, pub Endian);

/// One node of a document: a scalar, a string, raw bytes, an array of
/// nodes, or a map of named nodes held as ordered pairs.
#[derive(Debug, PartialEq, Eq)]
pub enum Byml {
    Null,
    String(String),
    Binary(Vec<u8>),
    Array(Vec<Byml>),
    Hash(Vec<(String, Byml)>),
    Bool(bool),
    Int(i32),
    Float(Float),
    UInt(u32),
    Int64(i64),
    UInt64(u64),
    Double(Double),
}

/// How a hash or array node is indexed.
pub enum BymlIndex<'a> {
    Key(&'a str),
    Index(usize),
}

/// The position of the first hash entry under the given key, or -1.
pub open spec fn spec_key_index(pairs: Seq<(String, Byml)>, key: Seq<char>) -> int
    decreases pairs.len(),
{
    if pairs.len() == 0 {
        -1
    } else if pairs[0].0@ == key {
        0
    } else {
        let rest = spec_key_index(pairs.drop_first(), key);
        if rest < 0 {
            -1
        } else {
            rest + 1
        }
    }
}

pub proof fn lemma_key_index(pairs: Seq<(String, Byml)>, key: Seq<char>)
    ensures
        spec_key_index(pairs, key) >= 0 ==> {
            &&& spec_key_index(pairs, key) < pairs.len()
            &&& pairs[spec_key_index(pairs, key)].0@ == key
        },
        spec_key_index(pairs, key) < 0 ==> forall|i: int|
            0 <= i < pairs.len() ==> (#[trigger] pairs[i]).0@ != key,
    decreases pairs.len(),
{
    if pairs.len() > 0 && pairs[0].0@ != key {
        lemma_key_index(pairs.drop_first(), key);
        assert forall|i: int| 0 <= i < pairs.len() && spec_key_index(pairs, key) < 0 implies (
        #[trigger] pairs[i]).0@ != key by {
            if i > 0 {
                assert(pairs.drop_first()[i - 1] == pairs[i]);
            }
        }
    }
}

proof fn lemma_key_index_found(pairs: Seq<(String, Byml)>, key: Seq<char>, i: int)
    requires
        0 <= i < pairs.len(),
        pairs[i].0@ == key,
        forall|j: int| 0 <= j < i ==> (#[trigger] pairs[j]).0@ != key,
    ensures
        spec_key_index(pairs, key) == i,
    decreases pairs.len(),
{
    if i > 0 {
        assert forall|j: int| 0 <= j < i - 1 implies (#[trigger] pairs.drop_first()[j]).0@
            != key by {
            assert(pairs.drop_first()[j] == pairs[j + 1]);
        }
        assert(pairs.drop_first()[i - 1] == pairs[i]);
        lemma_key_index_found(pairs.drop_first(), key, i - 1);
    }
}

impl Byml {
    /// Whether the node is an array or hash.
    pub fn is_container(&self) -> (r: bool)
        ensures
            r == (self is Hash || self is Array),
    {
        matches!(self, Byml::Hash(_) | Byml::Array(_))
    }

    /// Whether the node is an inline value (`Int`, `UInt`, `Float` or
    /// `Bool`).
    pub fn is_value(&self) -> (r: bool)
        ensures
            r == (self is Int || self is UInt || self is Float || self is Bool),
    {
        matches!(self, Byml::Int(_) | Byml::UInt(_) | Byml::Float(_) | Byml::Bool(_))
    }

    /// Whether the node is a string.
    pub fn is_string(&self) -> (r: bool)
        ensures
            r == (self is String),
    {
        matches!(self, Byml::String(_))
    }

    /// Whether the node is the null value.
    pub fn is_null(&self) -> (r: bool)
        ensures
            r == (self is Null),
    {
        matches!(self, Byml::Null)
    }

    /// The binary tag of this node's variant.
    pub fn get_type(&self) -> (r: NodeType)
        ensures
            r == match self {
                Byml::Array(_) => NodeType::Array,
                Byml::Hash(_) => NodeType::Hash,
                Byml::Binary(_) => NodeType::Binary,
                Byml::Bool(_) => NodeType::Bool,
                Byml::Double(_) => NodeType::Double,
                Byml::Float(_) => NodeType::Float,
                Byml::Int(_) => NodeType::Int,
                Byml::Int64(_) => NodeType::Int64,
                Byml::Null => NodeType::Null,
                Byml::String(_) => NodeType::String,
                Byml::UInt(_) => NodeType::UInt,
                Byml::UInt64(_) => NodeType::UInt64,
            },
    {
        match self {
            Byml::Array(_) => NodeType::Array,
            Byml::Hash(_) => NodeType::Hash,
            Byml::Binary(_) => NodeType::Binary,
            Byml::Bool(_) => NodeType::Bool,
            Byml::Double(_) => NodeType::Double,
            Byml::Float(_) => NodeType::Float,
            Byml::Int(_) => NodeType::Int,
            Byml::Int64(_) => NodeType::Int64,
            Byml::Null => NodeType::Null,
            Byml::String(_) => NodeType::String,
            Byml::UInt(_) => NodeType::UInt,
            Byml::UInt64(_) => NodeType::UInt64,
        }
    }

    /// The inner hash pairs, or a type error.
    pub fn as_hash(&self) -> (r: Result<&Vec<(String, Byml)>, TypeError>)
        ensures
            r is Ok <==> self is Hash,
            r is Ok ==> r->Ok_0 == &self->Hash_0,
    {
        match self {
            Byml::Hash(v) => Ok(v),
            _ => Err(TypeError),
        }
    }

    /// The inner array, or a type error.
    pub fn as_array(&self) -> (r: Result<&Vec<Byml>, TypeError>)
        ensures
            r is Ok <==> self is Array,
            r is Ok ==> r->Ok_0 == &self->Array_0,
    {
        match self {
            Byml::Array(v) => Ok(v),
            _ => Err(TypeError),
        }
    }

    /// The inner binary data, or a type error.
    pub fn as_binary(&self) -> (r: Result<&Vec<u8>, TypeError>)
        ensures
            r is Ok <==> self is Binary,
            r is Ok ==> r->Ok_0 == &self->Binary_0,
    {
        match self {
            Byml::Binary(v) => Ok(v),
            _ => Err(TypeError),
        }
    }

    /// The inner boolean, or a type error.
    pub fn as_bool(&self) -> (r: Result<bool, TypeError>)
        ensures
            r is Ok <==> self is Bool,
            r is Ok ==> r->Ok_0 == self->Bool_0,
    {
        match self {
            Byml::Bool(v) => Ok(*v),
            _ => Err(TypeError),
        }
    }

    /// The inner string, or a type error.
    pub fn as_string(&self) -> (r: Result<&String, TypeError>)
        ensures
            r is Ok <==> self is String,
            r is Ok ==> r->Ok_0 == &self->String_0,
    {
        match self {
            Byml::String(v) => Ok(v),
            _ => Err(TypeError),
        }
    }

    /// The inner i32, or a type error.
    pub fn as_int(&self) -> (r: Result<i32, TypeError>)
        ensures
            r is Ok <==> self is Int,
            r is Ok ==> r->Ok_0 == self->Int_0,
    {
        match self {
            Byml::Int(v) => Ok(*v),
            _ => Err(TypeError),
        }
    }

    /// The inner i64, or a type error.
    pub fn as_int64(&self) -> (r: Result<i64, TypeError>)
        ensures
            r is Ok <==> self is Int64,
            r is Ok ==> r->Ok_0 == self->Int64_0,
    {
        match self {
            Byml::Int64(v) => Ok(*v),
            _ => Err(TypeError),
        }
    }

    /// The inner u32, or a type error.
    pub fn as_uint(&self) -> (r: Result<u32, TypeError>)
        ensures
            r is Ok <==> self is UInt,
            r is Ok ==> r->Ok_0 == self->UInt_0,
    {
        match self {
            Byml::UInt(v) => Ok(*v),
            _ => Err(TypeError),
        }
    }

    /// The inner u64, or a type error.
    pub fn as_uint64(&self) -> (r: Result<u64, TypeError>)
        ensures
            r is Ok <==> self is UInt64,
            r is Ok ==> r->Ok_0 == self->UInt64_0,
    {
        match self {
            Byml::UInt64(v) => Ok(*v),
            _ => Err(TypeError),
        }
    }

    /// A mutable look at the inner hash pairs, or a type error.
    pub fn as_mut_hash(&mut self) -> (r: Result<&mut Vec<(String, Byml)>, TypeError>)
        ensures
            r is Ok <==> *old(self) is Hash,
            r is Ok ==> *r->Ok_0 == (*old(self))->Hash_0 && *final(self) == Byml::Hash(
                *final(r->Ok_0),
            ),
            r is Err ==> *final(self) == *old(self),
    {
        match self {
            Byml::Hash(v) => Ok(v),
            _ => Err(TypeError),
        }
    }

    /// A mutable look at the inner array, or a type error.
    pub fn as_mut_array(&mut self) -> (r: Result<&mut Vec<Byml>, TypeError>)
        ensures
            r is Ok <==> *old(self) is Array,
            r is Ok ==> *r->Ok_0 == (*old(self))->Array_0 && *final(self) == Byml::Array(
                *final(r->Ok_0),
            ),
            r is Err ==> *final(self) == *old(self),
    {
        match self {
            Byml::Array(v) => Ok(v),
            _ => Err(TypeError),
        }
    }

    /// A mutable look at the inner binary data, or a type error.
    pub fn as_mut_binary(&mut self) -> (r: Result<&mut Vec<u8>, TypeError>)
        ensures
            r is Ok <==> *old(self) is Binary,
            r is Ok ==> *r->Ok_0 == (*old(self))->Binary_0 && *final(self) == Byml::Binary(
                *final(r->Ok_0),
            ),
            r is Err ==> *final(self) == *old(self),
    {
        match self {
            Byml::Binary(v) => Ok(v),
            _ => Err(TypeError),
        }
    }

    /// A mutable look at the inner string, or a type error.
    pub fn as_mut_string(&mut self) -> (r: Result<&mut String, TypeError>)
        ensures
            r is Ok <==> *old(self) is String,
            r is Ok ==> *r->Ok_0 == (*old(self))->String_0 && *final(self) == Byml::String(
                *final(r->Ok_0),
            ),
            r is Err ==> *final(self) == *old(self),
    {
        match self {
            Byml::String(v) => Ok(v),
            _ => Err(TypeError),
        }
    }

    /// A mutable look at the inner i32, or a type error.
    pub fn as_mut_int(&mut self) -> (r: Result<&mut i32, TypeError>)
        ensures
            r is Ok <==> *old(self) is Int,
            r is Ok ==> *r->Ok_0 == (*old(self))->Int_0 && *final(self) == Byml::Int(*final(r->Ok_0)),
            r is Err ==> *final(self) == *old(self),
    {
        match self {
            Byml::Int(v) => Ok(v),
            _ => Err(TypeError),
        }
    }

    /// A mutable look at the inner i64, or a type error.
    pub fn as_mut_int64(&mut self) -> (r: Result<&mut i64, TypeError>)
        ensures
            r is Ok <==> *old(self) is Int64,
            r is Ok ==> *r->Ok_0 == (*old(self))->Int64_0 && *final(self) == Byml::Int64(
                *final(r->Ok_0),
            ),
            r is Err ==> *final(self) == *old(self),
    {
        match self {
            Byml::Int64(v) => Ok(v),
            _ => Err(TypeError),
        }
    }

    /// A mutable look at the inner u32, or a type error.
    pub fn as_mut_uint(&mut self) -> (r: Result<&mut u32, TypeError>)
        ensures
            r is Ok <==> *old(self) is UInt,
            r is Ok ==> *r->Ok_0 == (*old(self))->UInt_0 && *final(self) == Byml::UInt(
                *final(r->Ok_0),
            ),
            r is Err ==> *final(self) == *old(self),
    {
        match self {
            Byml::UInt(v) => Ok(v),
            _ => Err(TypeError),
        }
    }

    /// A mutable look at the inner u64, or a type error.
    pub fn as_mut_uint64(&mut self) -> (r: Result<&mut u64, TypeError>)
        ensures
            r is Ok <==> *old(self) is UInt64,
            r is Ok ==> *r->Ok_0 == (*old(self))->UInt64_0 && *final(self) == Byml::UInt64(
                *final(r->Ok_0),
            ),
            r is Err ==> *final(self) == *old(self),
    {
        match self {
            Byml::UInt64(v) => Ok(v),
            _ => Err(TypeError),
        }
    }

    /// The first hash entry under the given key, when this node is a hash
    /// holding one.
    pub fn get_key(&self, key: &str) -> (r: Option<&Byml>)
        ensures
            r is Some <==> self is Hash && spec_key_index(self->Hash_0@, key@) >= 0,
            r is Some ==> r->0 == &self->Hash_0@[spec_key_index(self->Hash_0@, key@)].1,
    {
        match self {
            Byml::Hash(pairs) => {
                proof {
                    lemma_key_index(pairs@, key@);
                }
                let mut i: usize = 0;
                while i < pairs.len()
                    invariant
                        self is Hash,
                        pairs == &self->Hash_0,
                        i <= pairs@.len(),
                        forall|j: int| 0 <= j < i ==> (#[trigger] pairs@[j]).0@ != key@,
                    decreases pairs@.len() - i,
                {
                    if crate::strutil::str_eq(pairs[i].0.as_str(), key) {
                        proof {
                            lemma_key_index_found(pairs@, key@, i as int);
                        }
                        return Some(&pairs[i].1);
                    }
                    i = i + 1;
                }
                proof {
                    lemma_key_index(pairs@, key@);
                }
                None
            }
            _ => None,
        }
    }
}

} // verus!
