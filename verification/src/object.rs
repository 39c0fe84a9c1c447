//! The tagged value domain that compiled programs compute over: integers,
//! booleans, strings, null, arrays, hashes and compiled functions.
//!
//! Contracts about values are stated over [`ObjModel`], a mathematical
//! model of a value in which strings are character sequences, arrays are
//! sequences of models, and hashes are sequences of keyed pairs.

use vstd::prelude::*;
use vstd::string::StringExecFns;

use crate::code::Instructions;

verus! {

broadcast use vstd::std_specs::vec::axiom_vec_index_decreases;

/// A function compiled to bytecode: its instructions together with the
/// number of stack slots its parameters and local bindings need.
#[derive(Debug)]
pub struct CompiledFunction {
    pub instructions: Instructions,
    pub num_locals: usize,
}

/// An ordered collection of values.
#[derive(Debug)]
pub struct Array {
    pub elements: Vec<Object>,
}

/// One key/value pair held by a hash, keeping the key object itself.
#[derive(Debug)]
pub struct HashPair {
    pub key: Object,
    pub value: Object,
}

/// A mapping from hash keys to pairs, in insertion order. Keys are unique:
/// writing an existing key replaces its pair.
#[derive(Debug)]
pub struct Hash {
    pub pairs: Vec<(HashKey, HashPair)>,
}

/// The derived key of a hashable value. Only integers, booleans and
/// strings are hashable.
#[derive(Debug)]
pub enum HashKey {
    Int(i64),
    Bool(bool),
    Str(String),
}

/// A runtime value.
#[derive(Debug)]
pub enum Object {
    Integer(i64),
    Boolean(bool),
    Str(String),
    Null,
    Array(Array),
    Hash(Hash),
    CompiledFunction(CompiledFunction),
}

/// The mathematical model of a hash key.
pub enum HashKeyModel {
    Int(int),
    Bool(bool),
    Str(Seq<char>),
}

/// The mathematical model of a runtime value.
pub enum ObjModel {
    Int(int),
    Bool(bool),
    Str(Seq<char>),
    Null,
    Arr(Seq<ObjModel>),
    Hash(Seq<(HashKeyModel, ObjModel, ObjModel)>),
    Func(Seq<u8>, nat),
}

impl View for HashKey {
    type V = HashKeyModel;

    open spec fn view(&self) -> HashKeyModel {
        match self {
            HashKey::Int(i) => HashKeyModel::Int(*i as int),
            HashKey::Bool(b) => HashKeyModel::Bool(*b),
            HashKey::Str(s) => HashKeyModel::Str(s@),
        }
    }
}

/// The model of a value.
pub open spec fn obj_model(o: Object) -> ObjModel
    decreases o,
{
    match o {
        Object::Integer(i) => ObjModel::Int(i as int),
        Object::Boolean(b) => ObjModel::Bool(b),
        Object::Str(s) => ObjModel::Str(s@),
        Object::Null => ObjModel::Null,
        Object::Array(arr) => ObjModel::Arr(objs_model(arr.elements@)),
        Object::Hash(h) => ObjModel::Hash(pairs_model(h.pairs@)),
        Object::CompiledFunction(f) => ObjModel::Func(f.instructions@, f.num_locals as nat),
    }
}

/// The models of a sequence of values, in order.
pub open spec fn objs_model(s: Seq<Object>) -> Seq<ObjModel>
    decreases s,
{
    if s.len() == 0 {
        Seq::<ObjModel>::empty()
    } else {
        seq![obj_model(s[0])] + objs_model(s.subrange(1, s.len() as int))
    }
}

/// The models of a sequence of keyed hash pairs, in order.
pub open spec fn pairs_model(s: Seq<(HashKey, HashPair)>) -> Seq<
    (HashKeyModel, ObjModel, ObjModel),
>
    decreases s,
{
    if s.len() == 0 {
        Seq::<(HashKeyModel, ObjModel, ObjModel)>::empty()
    } else {
        seq![(s[0].0@, obj_model(s[0].1.key), obj_model(s[0].1.value))] + pairs_model(
            s.subrange(1, s.len() as int),
        )
    }
}

impl View for Object {
    type V = ObjModel;

    open spec fn view(&self) -> ObjModel {
        obj_model(*self)
    }
}

/// `objs_model` maps the model over the sequence pointwise.
pub broadcast proof fn lemma_objs_model(s: Seq<Object>)
    ensures
        (#[trigger] objs_model(s)).len() == s.len(),
        forall|i: int| 0 <= i < s.len() ==> #[trigger] objs_model(s)[i] == obj_model(s[i]),
    decreases s,
{
    if s.len() > 0 {
        let sub = s.subrange(1, s.len() as int);
        lemma_objs_model(sub);
        assert forall|i: int| 0 <= i < s.len() implies #[trigger] objs_model(s)[i] == obj_model(
            s[i],
        ) by {
            if i > 0 {
                assert(sub[i - 1] == s[i]);
                assert(objs_model(s)[i] == objs_model(sub)[i - 1]);
            }
        }
    }
}

/// `pairs_model` maps the model over the pair sequence pointwise.
pub broadcast proof fn lemma_pairs_model(s: Seq<(HashKey, HashPair)>)
    ensures
        (#[trigger] pairs_model(s)).len() == s.len(),
        forall|i: int|
            0 <= i < s.len() ==> #[trigger] pairs_model(s)[i] == (s[i].0@, obj_model(s[i].1.key),
            obj_model(s[i].1.value)),
    decreases s,
{
    if s.len() > 0 {
        let sub = s.subrange(1, s.len() as int);
        lemma_pairs_model(sub);
        assert forall|i: int|
            0 <= i < s.len() implies #[trigger] pairs_model(s)[i] == (s[i].0@, obj_model(
            s[i].1.key,
        ), obj_model(s[i].1.value)) by {
            if i > 0 {
                assert(sub[i - 1] == s[i]);
                assert(pairs_model(s)[i] == pairs_model(sub)[i - 1]);
            }
        }
    }
}

impl Clone for HashKey {
    /// Cloning preserves the key's model.
    fn clone(&self) -> (r: HashKey)
        ensures
            r@ == self@,
    {
        match self {
            HashKey::Int(i) => HashKey::Int(*i),
            HashKey::Bool(b) => HashKey::Bool(*b),
            HashKey::Str(s) => HashKey::Str(s.clone()),
        }
    }
}

impl Clone for CompiledFunction {
    /// Cloning preserves the instruction bytes and the local count.
    fn clone(&self) -> (r: CompiledFunction)
        ensures
            r.instructions@ == self.instructions@,
            r.num_locals == self.num_locals,
    {
        CompiledFunction { instructions: Instructions(self.instructions.0.clone()), num_locals: self.num_locals }
    }
}

impl Clone for Object {
    /// Cloning preserves the value's model.
    fn clone(&self) -> (r: Object)
        ensures
            r@ == self@,
        decreases *self,
    {
        broadcast use lemma_objs_model, lemma_pairs_model;

        match self {
            Object::Integer(i) => Object::Integer(*i),
            Object::Boolean(b) => Object::Boolean(*b),
            Object::Str(s) => Object::Str(s.clone()),
            Object::Null => Object::Null,
            Object::Array(arr) => {
                let n = arr.elements.len();
                let mut elements: Vec<Object> = Vec::new();
                let mut i: usize = 0;
                while i < n
                    invariant
                        *self == Object::Array(*arr),
                        n == arr.elements@.len(),
                        i <= n,
                        elements@.len() == i,
                        forall|j: int|
                            0 <= j < i ==> obj_model(#[trigger] elements@[j]) == obj_model(
                                arr.elements@[j],
                            ),
                    decreases n - i,
                {
                    proof {
                        let ghost ov = *self;
                        assert(decreases_to!(ov => ov->Array_0));
                        assert(ov->Array_0 == *arr);
                        assert(decreases_to!(*arr => arr.elements));
                        assert(decreases_to!(arr.elements => arr.elements[i as int]));
                    }
                    elements.push(arr.elements[i].clone());
                    i = i + 1;
                }
                proof {
                    assert(objs_model(elements@) =~= objs_model(arr.elements@));
                }
                Object::Array(Array { elements })
            },
            Object::Hash(h) => {
                let n = h.pairs.len();
                let mut pairs: Vec<(HashKey, HashPair)> = Vec::new();
                let mut i: usize = 0;
                while i < n
                    invariant
                        *self == Object::Hash(*h),
                        n == h.pairs@.len(),
                        i <= n,
                        pairs@.len() == i,
                        forall|j: int|
                            0 <= j < i ==> ((#[trigger] pairs@[j]).0@ == h.pairs@[j].0@
                                && obj_model(pairs@[j].1.key) == obj_model(h.pairs@[j].1.key)
                                && obj_model(pairs@[j].1.value) == obj_model(h.pairs@[j].1.value)),
                    decreases n - i,
                {
                    proof {
                        let ghost ov = *self;
                        assert(decreases_to!(ov => ov->Hash_0));
                        assert(ov->Hash_0 == *h);
                        assert(decreases_to!(*h => h.pairs));
                        assert(decreases_to!(h.pairs => h.pairs[i as int]));
                        assert(decreases_to!(h.pairs[i as int] => h.pairs[i as int].1));
                    }
                    let entry = &h.pairs[i];
                    let key_copy = entry.1.key.clone();
                    let value_copy = entry.1.value.clone();
                    pairs.push((entry.0.clone(), HashPair { key: key_copy, value: value_copy }));
                    i = i + 1;
                }
                proof {
                    assert(pairs_model(pairs@) =~= pairs_model(h.pairs@));
                }
                Object::Hash(Hash { pairs })
            },
            Object::CompiledFunction(f) => Object::CompiledFunction(f.clone()),
        }
    }
}

/// The printable name of a value's type.
pub open spec fn kind_name_of(o: ObjModel) -> Seq<char> {
    match o {
        ObjModel::Int(_) => "Integer"@,
        ObjModel::Bool(_) => "Boolean"@,
        ObjModel::Str(_) => "String"@,
        ObjModel::Null => "Null"@,
        ObjModel::Arr(_) => "Array"@,
        ObjModel::Hash(_) => "Hash"@,
        ObjModel::Func(_, _) => "CompiledFunction"@,
    }
}

impl Object {
    /// The printable name of this value's type.
    pub fn kind_name(&self) -> (r: String)
        ensures
            r@ == kind_name_of(self@),
    {
        match self {
            Object::Integer(_) => String::from_str("Integer"),
            Object::Boolean(_) => String::from_str("Boolean"),
            Object::Str(_) => String::from_str("String"),
            Object::Null => String::from_str("Null"),
            Object::Array(_) => String::from_str("Array"),
            Object::Hash(_) => String::from_str("Hash"),
            Object::CompiledFunction(_) => String::from_str("CompiledFunction"),
        }
    }
}

/// The hash key a value derives, if it is hashable.
pub open spec fn spec_hash_key(o: ObjModel) -> Option<HashKeyModel> {
    match o {
        ObjModel::Int(i) => Some(HashKeyModel::Int(i)),
        ObjModel::Bool(b) => Some(HashKeyModel::Bool(b)),
        ObjModel::Str(s) => Some(HashKeyModel::Str(s)),
        _ => None,
    }
}

/// Derives the hash key of a hashable value; integers, booleans and
/// strings are hashable, every other variant is refused.
pub fn hash_key_of(o: &Object) -> (r: Result<HashKey, String>)
    ensures
        match r {
            Ok(k) => spec_hash_key(o@) == Some(k@),
            Err(e) => spec_hash_key(o@) is None && e@ == "unusable as hash key: "@ + kind_name_of(
                o@,
            ),
        },
{
    match o {
        Object::Integer(i) => Ok(HashKey::Int(*i)),
        Object::Boolean(b) => Ok(HashKey::Bool(*b)),
        Object::Str(s) => Ok(HashKey::Str(s.clone())),
        _ => Err(String::from_str("unusable as hash key: ").concat(o.kind_name().as_str())),
    }
}

impl HashKey {
    /// Whether two hash keys are the same key.
    pub fn equals(&self, other: &HashKey) -> (r: bool)
        ensures
            r == (self@ == other@),
    {
        match (self, other) {
            (HashKey::Int(a), HashKey::Int(b)) => *a == *b,
            (HashKey::Bool(a), HashKey::Bool(b)) => *a == *b,
            (HashKey::Str(a), HashKey::Str(b)) => *a == *b,
            _ => false,
        }
    }
}

/// Whether a value counts as true in a condition: everything but `Null`
/// and `false` is truthy.
pub open spec fn truthy(o: ObjModel) -> bool {
    match o {
        ObjModel::Bool(b) => b,
        ObjModel::Null => false,
        _ => true,
    }
}

/// Structural equality on primitive values, as the comparison opcodes use
/// it: integers, booleans and strings compare by their contents, two nulls
/// are equal, and every other combination is unequal.
pub open spec fn prim_eq(a: ObjModel, b: ObjModel) -> bool {
    match (a, b) {
        (ObjModel::Int(x), ObjModel::Int(y)) => x == y,
        (ObjModel::Bool(x), ObjModel::Bool(y)) => x == y,
        (ObjModel::Str(x), ObjModel::Str(y)) => x == y,
        (ObjModel::Null, ObjModel::Null) => true,
        _ => false,
    }
}

impl Object {
    /// Compares two values with the structural equality of the comparison
    /// opcodes.
    pub fn same_primitive(&self, other: &Object) -> (r: bool)
        ensures
            r == prim_eq(self@, other@),
    {
        match (self, other) {
            (Object::Integer(a), Object::Integer(b)) => *a == *b,
            (Object::Boolean(a), Object::Boolean(b)) => *a == *b,
            (Object::Str(a), Object::Str(b)) => *a == *b,
            (Object::Null, Object::Null) => true,
            _ => false,
        }
    }
}

} // verus!
