//! The arrays of a program as they are laid out in the memory of the
//! circuit: one after another, each with an identity and a base address.

use acvm::acir::native_types::Witness;
use num_bigint::BigUint;
use std::collections::HashMap;
use vstd::arithmetic::power2::lemma2_to64;
use vstd::arithmetic::power2::pow2;
use vstd::prelude::*;
use crate::basics::ArraySize;
use crate::bignum::be_value;
use crate::bignum::biguint_clone;
use crate::bignum::biguint_from_bytes_be;
use crate::bignum::biguint_from_u32;
use crate::bignum::biguint_pow;
use crate::bignum::biguint_rem;
use crate::bignum::biguint_to_u32;
use crate::bignum::biguint_value;

verus! {

/// `acir::native_types::Witness`: the index of a witness of the circuit.
/// Values of it are carried through here and not looked into.
#[verifier::external_type_specification]
#[verifier::external_body]
pub struct ExWitness(acvm::acir::native_types::Witness);

/// Names an array of the memory: its position among the arrays.
#[derive(Debug, Copy, Clone, PartialEq, Eq, Structural, PartialOrd, Ord, Hash)]
pub struct ArrayId(u32);

impl ArrayId {
    /// The position that this identity names.
    pub closed spec fn position(self) -> nat {
        self.0 as nat
    }

    /// The position that this identity names.
    pub fn index(&self) -> (i: u32)
        ensures
            i == self.position(),
    {
        self.0
    }
}

/// Names the definition that a value was introduced by.
#[derive(Debug, Copy, Clone, PartialEq, Eq, Structural, Hash)]
pub struct DefinitionId(pub usize);

impl DefinitionId {
    /// The identity for what has no definition in the source.
    pub fn dummy_id() -> (id: DefinitionId)
        ensures
            id == DefinitionId(usize::MAX),
    {
        DefinitionId(usize::MAX)
    }
}

/// Names a node of the program in single assignment form.
#[derive(Debug, Copy, Clone, PartialEq, Eq, Structural, Hash)]
pub struct NodeId(pub usize);

/// The type of a value in single assignment form.
#[derive(Debug, Copy, Clone, PartialEq, Eq, Structural, Hash)]
pub enum ObjectType {
    NativeField,
    Boolean,
    Unsigned(u32),
    Signed(u32),
    Pointer(ArrayId),
    NotAnObject,
}

/// One array of the memory.
#[derive(Debug)]
pub struct MemArray {
    pub id: ArrayId,
    /// The type of the elements.
    pub element_type: ObjectType,
    /// The witnesses of the elements, once they are known.
    pub values: Vec<Witness>,
    pub name: String,
    pub def: DefinitionId,
    /// The number of elements.
    pub len: u32,
    /// The address of the first element.
    pub adr: u32,
    /// The largest value that an element can take.
    pub max: BigUint,
}

impl Clone for MemArray {
    fn clone(&self) -> (copy: MemArray)
        ensures
            copy.id == self.id,
            copy.element_type == self.element_type,
            copy.values@ == self.values@,
            copy.name@ == self.name@,
            copy.def == self.def,
            copy.len == self.len,
            copy.adr == self.adr,
            biguint_value(copy.max) == biguint_value(self.max),
    {
        let mut values: Vec<Witness> = Vec::new();
        let mut i: usize = 0;
        while i < self.values.len()
            invariant
                i <= self.values.len(),
                values@ == self.values@.take(i as int),
            decreases self.values.len() - i,
        {
            values.push(self.values[i]);
            assert(self.values@.take(i + 1) =~= self.values@.take(i as int).push(
                self.values@[i as int],
            ));
            i += 1;
        }
        assert(self.values@.take(self.values.len() as int) =~= self.values@);
        MemArray {
            id: self.id,
            element_type: self.element_type,
            values,
            name: self.name.clone(),
            def: self.def,
            len: self.len,
            adr: self.adr,
            max: biguint_clone(&self.max),
        }
    }
}

/// The witnesses that `objects` have, in order, leaving out those without one.
pub open spec fn present(objects: Seq<Option<Witness>>) -> Seq<Witness>
    decreases objects.len(),
{
    if objects.len() == 0 {
        Seq::empty()
    } else if objects.last() is Some {
        present(objects.drop_last()).push(objects.last()->0)
    } else {
        present(objects.drop_last())
    }
}

impl MemArray {
    /// Adds the witnesses of the elements. Afterwards the array has a
    /// witness for none of its elements or for each of them; callers must
    /// hand in as many as that takes.
    pub fn set_witness(&mut self, array: &Vec<Option<Witness>>)
        requires
            old(self).values.len() + present(array@).len() == 0 || old(self).values.len()
                + present(array@).len() == old(self).len,
        ensures
            final(self).values@ == old(self).values@ + present(array@),
            final(self).id == old(self).id,
            final(self).element_type == old(self).element_type,
            final(self).name == old(self).name,
            final(self).def == old(self).def,
            final(self).len == old(self).len,
            final(self).adr == old(self).adr,
            final(self).max == old(self).max,
    {
        let mut i: usize = 0;
        assert(array@.take(0) =~= Seq::<Option<Witness>>::empty());
        while i < array.len()
            invariant
                i <= array.len(),
                self.values@ == old(self).values@ + present(array@.take(i as int)),
                self.id == old(self).id,
                self.element_type == old(self).element_type,
                self.name == old(self).name,
                self.def == old(self).def,
                self.len == old(self).len,
                self.adr == old(self).adr,
                self.max == old(self).max,
            decreases array.len() - i,
        {
            proof {
                assert(array@.take(i + 1).drop_last() =~= array@.take(i as int));
                assert(array@.take(i + 1).last() == array@[i as int]);
            }
            if let Some(w) = array[i] {
                self.values.push(w);
            }
            i += 1;
        }
        assert(array@.take(array.len() as int) =~= array@);
    }

    fn new(
        id: ArrayId,
        definition: DefinitionId,
        name: &str,
        of: ObjectType,
        len: u32,
        max: BigUint,
    ) -> (array: MemArray)
        requires
            len > 0,
        ensures
            array.id == id,
            array.element_type == of,
            array.name@ == name@,
            array.values@ == Seq::<Witness>::empty(),
            array.def == definition,
            array.len == len,
            array.adr == 0,
            array.max == max,
    {
        MemArray {
            id,
            element_type: of,
            name: name.to_owned(),
            values: Vec::new(),
            def: definition,
            len,
            adr: 0,
            max,
        }
    }
}

/// The memory: its arrays in the order in which they were made, the first
/// free address, and the node that stands at each address in use.
pub struct Memory {
    arrays: Vec<MemArray>,
    /// The first address after the last array.
    pub last_adr: u32,
    /// Maps an address to the node that holds what is stored there.
    pub memory_map: HashMap<u32, NodeId>,
}

impl Default for Memory {
    fn default() -> (memory: Memory)
        ensures
            memory.wf(),
            memory.arrays().len() == 0,
            memory.first_free() == 0,
            memory.nodes()@ == Map::<u32, NodeId>::empty(),
    {
        Memory { arrays: Vec::new(), last_adr: 0, memory_map: HashMap::new() }
    }
}

impl Memory {
    /// The arrays, in the order in which they were made.
    pub closed spec fn arrays(self) -> Seq<MemArray> {
        self.arrays@
    }

    /// The first address after the last array.
    pub closed spec fn first_free(self) -> u32 {
        self.last_adr
    }

    /// The node that stands at each address in use.
    pub closed spec fn nodes(self) -> HashMap<u32, NodeId> {
        self.memory_map
    }

    /// The memory is well formed: each array is named by its position and
    /// has at least one element, each array begins where the one before it
    /// ends, and the first free address is where the last one ends.
    pub open spec fn wf(self) -> bool {
        &&& self.arrays().len() <= u32::MAX
        &&& forall|i: int|
            0 <= i < self.arrays().len() ==> (#[trigger] self.arrays()[i]).id.position() == i
                && self.arrays()[i].len > 0
        &&& forall|i: int, j: int|
            0 <= i && j == i + 1 && j < self.arrays().len() ==> (#[trigger] self.arrays()[i]).adr
                + self.arrays()[i].len == (#[trigger] self.arrays()[j]).adr
        &&& self.arrays().len() > 0 ==> self.arrays().last().adr + self.arrays().last().len
            == self.first_free()
    }

    /// No two arrays overlap: an array that was made earlier ends before
    /// one that was made later begins.
    pub proof fn arrays_do_not_overlap(self, i: int, j: int)
        requires
            self.wf(),
            0 <= i < j < self.arrays().len(),
        ensures
            self.arrays()[i].adr + self.arrays()[i].len <= self.arrays()[j].adr,
        decreases j - i,
    {
        if i + 1 < j {
            self.arrays_do_not_overlap(i + 1, j);
        }
        assert(self.arrays()[i].adr + self.arrays()[i].len == self.arrays()[i + 1].adr);
    }

    /// The first array that was introduced by `definition`, if there is one.
    pub fn find_array(&self, definition: DefinitionId) -> (found: Option<&MemArray>)
        ensures
            match found {
                Some(array) => exists|i: int|
                    0 <= i < self.arrays().len() && *array == self.arrays()[i] && array.def
                        == definition && forall|k: int|
                        0 <= k < i ==> (#[trigger] self.arrays()[k]).def != definition,
                None => forall|k: int|
                    0 <= k < self.arrays().len() ==> (#[trigger] self.arrays()[k]).def
                        != definition,
            },
    {
        let mut i: usize = 0;
        while i < self.arrays.len()
            invariant
                i <= self.arrays.len(),
                forall|k: int| 0 <= k < i ==> (#[trigger] self.arrays()[k]).def != definition,
            decreases self.arrays.len() - i,
        {
            if self.arrays[i].def == definition {
                assert(self.arrays()[i as int] == self.arrays[i as int]);
                return Some(&self.arrays[i]);
            }
            i += 1;
        }
        None
    }

    /// The identity of the array that was made last. There must be one.
    pub fn last_id(&self) -> (id: ArrayId)
        requires
            self.wf(),
            self.arrays().len() > 0,
        ensures
            id.position() == self.arrays().len() - 1,
    {
        ArrayId(self.arrays.len() as u32 - 1)
    }

    /// The array that a value of type `node_type` points to, if it is a pointer.
    pub fn deref(node_type: Option<ObjectType>) -> (array: Option<ArrayId>)
        ensures
            array == match node_type {
                Some(ObjectType::Pointer(a)) => Some(a),
                _ => None::<ArrayId>,
            },
    {
        match node_type {
            Some(ObjectType::Pointer(a)) => Some(a),
            _ => None,
        }
    }

    /// Makes a new array of `len` elements of type `el_type`, none of which
    /// can exceed `max`, at the first free address, and returns its identity.
    pub fn create_new_array(
        &mut self,
        len: u32,
        el_type: ObjectType,
        arr_name: &str,
        max: BigUint,
    ) -> (id: ArrayId)
        requires
            old(self).wf(),
            len > 0,
            old(self).arrays().len() < u32::MAX,
            old(self).first_free() + len <= u32::MAX,
        ensures
            final(self).wf(),
            id.position() == old(self).arrays().len(),
            final(self).arrays().len() == old(self).arrays().len() + 1,
            forall|i: int|
                0 <= i < old(self).arrays().len() ==> #[trigger] final(self).arrays()[i] == old(
                    self,
                ).arrays()[i],
            final(self).arrays()[id.position() as int].id == id,
            final(self).arrays()[id.position() as int].len == len,
            final(self).arrays()[id.position() as int].adr == old(self).first_free(),
            final(self).arrays()[id.position() as int].element_type == el_type,
            final(self).arrays()[id.position() as int].name@ == arr_name@,
            final(self).arrays()[id.position() as int].def == DefinitionId(usize::MAX),
            final(self).arrays()[id.position() as int].max == max,
            final(self).arrays()[id.position() as int].values@ == Seq::<Witness>::empty(),
            final(self).first_free() == old(self).first_free() + len,
            final(self).nodes() == old(self).nodes(),
    {
        let id = ArrayId(self.arrays.len() as u32);
        let mut new_array = MemArray::new(id, DefinitionId::dummy_id(), arr_name, el_type, len, max);
        new_array.adr = self.last_adr;
        self.arrays.push(new_array);
        self.last_adr += len;
        proof {
            assert forall|i: int, j: int|
                0 <= i && j == i + 1 && j < self.arrays().len() implies (
            #[trigger] self.arrays()[i]).adr + self.arrays()[i].len == (
            #[trigger] self.arrays()[j]).adr by {
                assert(self.arrays()[i] == old(self).arrays()[i]);
                if j < old(self).arrays().len() {
                    assert(self.arrays()[j] == old(self).arrays()[j]);
                }
            }
        }
        id
    }

    /// The array that `index` names.
    pub fn index(&self, index: ArrayId) -> (array: &MemArray)
        requires
            index.position() < self.arrays().len(),
        ensures
            *array == self.arrays()[index.position() as int],
    {
        &self.arrays[index.0 as usize]
    }

    /// The array that `index` names, to be changed in place.
    pub fn index_mut(&mut self, index: ArrayId) -> (array: &mut MemArray)
        requires
            index.position() < old(self).arrays().len(),
        ensures
            *array == old(self).arrays()[index.position() as int],
            final(self).arrays() == old(self).arrays().update(
                index.position() as int,
                *final(array),
            ),
            final(self).first_free() == old(self).first_free(),
            final(self).nodes() == old(self).nodes(),
    {
        &mut self.arrays[index.0 as usize]
    }

    /// The low 32 bits of a field element, given by its bytes in big-endian
    /// order: its value modulo two to the power of 32.
    pub fn as_u32(value: &Vec<u8>) -> (low: u32)
        ensures
            low == be_value(value@) % 0x1_0000_0000,
    {
        let big_v = biguint_from_bytes_be(value);
        let mut modulus = biguint_from_u32(2);
        modulus = biguint_pow(&modulus, 32);
        proof {
            lemma2_to64();
            assert(pow2(32) == 0x1_0000_0000);
        }
        let result = biguint_rem(big_v, modulus);
        biguint_to_u32(&result).unwrap()
    }

    /// The address that a constant stands for, if it fits in 32 bits.
    /// `None` for what is not a constant.
    pub fn to_u32(index_as_constant: Option<u128>) -> (address: Option<u32>)
        ensures
            address == match index_as_constant {
                Some(value) if value <= u32::MAX => Some(value as u32),
                _ => None::<u32>,
            },
    {
        if let Some(value) = index_as_constant {
            if value <= u32::MAX as u128 {
                return Some(value as u32);
            }
        }
        None
    }
}

/// The length of an array of fixed size, cut down to 32 bits. The size must
/// be fixed.
pub fn get_array_size(array_size: &ArraySize) -> (len: u32)
    requires
        *array_size is Fixed,
    ensures
        len == array_size->Fixed_0 % 0x1_0000_0000,
{
    match array_size {
        ArraySize::Fixed(l) => {
            let l: u128 = *l;
            let len = #[verifier::truncate] (l as u32);
            assert(len == l % 0x1_0000_0000) by (bit_vector)
                requires
                    len == #[verifier::truncate] (l as u32),
            ;
            len
        },
        ArraySize::Variable => unreached(),
    }
}

} // verus!
