use vstd::prelude::*;

use crate::builder::Op;
use crate::graph::{EngineError, OpKind, PortType, copy_types};

verus! {

/// The signature of an operation that the registry describes.
#[derive(Debug)]
pub struct OpDef {
    pub name: String,
    pub inputs: Vec<PortType>,
    pub outputs: Vec<PortType>,
}

/// The operations and types that the engine does not know by itself, each
/// found by name. `Opaque(i)` and `Custom(i)` refer to entry `i`.
#[derive(Debug)]
pub struct Registry {
    pub types: Vec<String>,
    pub ops: Vec<OpDef>,
}

/// The first index at which `names` holds `name`, if any.
pub open spec fn first_index(names: Seq<Seq<char>>, name: Seq<char>) -> Option<int>
    decreases names.len(),
{
    if names.len() == 0 {
        None
    } else if names.last() == name && first_index(names.drop_last(), name) is None {
        Some(names.len() - 1)
    } else {
        first_index(names.drop_last(), name)
    }
}

pub proof fn lemma_first_index(names: Seq<Seq<char>>, name: Seq<char>)
    ensures
        first_index(names, name) is None <==> forall|i: int| 0 <= i < names.len() ==> names[i] != name,
        first_index(names, name) matches Some(i) ==> {
            &&& 0 <= i < names.len()
            &&& names[i] == name
            &&& forall|j: int| 0 <= j < i ==> names[j] != name
        },
    decreases names.len(),
{
    if names.len() > 0 {
        lemma_first_index(names.drop_last(), name);
        let d = names.drop_last();
        assert forall|j: int| 0 <= j < d.len() implies d[j] == names[j] by {}
    }
}

impl Registry {
    pub open spec fn type_names(&self) -> Seq<Seq<char>> {
        self.types@.map_values(|s: String| s@)
    }

    pub open spec fn op_names(&self) -> Seq<Seq<char>> {
        self.ops@.map_values(|d: OpDef| d.name@)
    }

    /// An empty registry.
    pub fn new() -> (r: Registry)
        ensures
            r.types@.len() == 0,
            r.ops@.len() == 0,
    {
        Registry { types: Vec::new(), ops: Vec::new() }
    }

    /// Adds a named type and returns how ports refer to it.
    pub fn add_type(&mut self, name: String) -> (r: PortType)
        ensures
            final(self).types@ == old(self).types@.push(name),
            final(self).ops@ == old(self).ops@,
            r == PortType::Custom(old(self).types@.len() as usize),
    {
        let i = self.types.len();
        self.types.push(name);
        PortType::Custom(i)
    }

    /// Adds a named operation with its signature.
    pub fn add_op(&mut self, name: String, inputs: Vec<PortType>, outputs: Vec<PortType>)
        ensures
            final(self).ops@ == old(self).ops@.push(OpDef { name, inputs, outputs }),
            final(self).types@ == old(self).types@,
    {
        self.ops.push(OpDef { name, inputs, outputs });
    }

    fn position(names: &Vec<String>, name: &String) -> (r: Option<usize>)
        ensures
            r matches Some(i) ==> first_index(names@.map_values(|s: String| s@), name@) == Some(i as int),
            r is None ==> first_index(names@.map_values(|s: String| s@), name@) is None,
    {
        let ghost all = names@.map_values(|s: String| s@);
        proof {
            lemma_first_index(all, name@);
        }
        let mut i: usize = 0;
        while i < names.len()
            invariant
                i <= names@.len(),
                all == names@.map_values(|s: String| s@),
                forall|j: int| 0 <= j < i ==> all[j] != name@,
            decreases names@.len() - i,
        {
            if names[i] == *name {
                proof {
                    lemma_first_index(all, name@);
                    assert(all[i as int] == name@);
                    match first_index(all, name@) {
                        Some(k) => {
                            if k > i {
                                assert(all[i as int] != name@);
                            }
                        },
                        None => {
                            assert(all[i as int] != name@);
                        },
                    }
                }
                return Some(i);
            }
            i = i + 1;
        }
        None
    }

    /// The type registered under `name`, or `UnresolvedKind`.
    pub fn get_type(&self, name: &String) -> (r: Result<PortType, EngineError>)
        ensures
            r is Err <==> first_index(self.type_names(), name@) is None,
            r is Err ==> r == Err::<PortType, EngineError>(EngineError::UnresolvedKind),
            r matches Ok(t) ==> (first_index(self.type_names(), name@) matches Some(i) && t == PortType::Custom(i as usize)),
    {
        match Registry::position(&self.types, name) {
            Some(i) => Ok(PortType::Custom(i)),
            None => Err(EngineError::UnresolvedKind),
        }
    }

    /// The operation registered under `name`, ready to place, or
    /// `UnresolvedKind`.
    pub fn instantiate(&self, name: &String) -> (r: Result<Op, EngineError>)
        ensures
            r is Err <==> first_index(self.op_names(), name@) is None,
            r is Err ==> r == Err::<Op, EngineError>(EngineError::UnresolvedKind),
            r is Ok ==> (first_index(self.op_names(), name@) matches Some(i) && {
                let op = r.unwrap();
                &&& op.kind == OpKind::Opaque(i as usize)
                &&& op.inputs@ == self.ops@[i].inputs@
                &&& op.outputs@ == self.ops@[i].outputs@
            }),
    {
        let mut names: Vec<String> = Vec::new();
        let mut i: usize = 0;
        while i < self.ops.len()
            invariant
                i <= self.ops@.len(),
                names@.len() == i,
                forall|j: int| 0 <= j < i ==> (#[trigger] names@[j])@ == self.ops@[j].name@,
            decreases self.ops@.len() - i,
        {
            names.push(self.ops[i].name.clone());
            i = i + 1;
        }
        proof {
            assert(names@.map_values(|s: String| s@) =~= self.op_names());
        }
        let found = Registry::position(&names, name);
        proof {
            lemma_first_index(self.op_names(), name@);
        }
        match found {
            Some(i) => {
                let d = &self.ops[i];
                Ok(Op { kind: OpKind::Opaque(i), inputs: copy_types(&d.inputs), outputs: copy_types(&d.outputs) })
            },
            None => Err(EngineError::UnresolvedKind),
        }
    }
}

} // verus!
