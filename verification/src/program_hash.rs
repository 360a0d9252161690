//! The canonical program encoding and the hash chain over it: a stripped
//! program (entry point, builtin names, data segment) is linearized into a
//! sequence of field elements, and the sequence is folded right to left
//! through the Pedersen hash into the single element that identifies the
//! program.

use crate::felt::{be_val, Felt};
use crate::pedersen::{pedersen, pedersen_of};
use vstd::prelude::*;

verus! {

/// An address in the virtual machine's relocatable memory.
#[derive(Clone, Copy, Debug, PartialEq, Eq)]
pub struct Relocatable {
    pub segment_index: isize,
    pub offset: usize,
}

/// One cell of the data segment: a plain field element or a relocatable
/// reference that has not been resolved to one.
#[derive(Clone, Debug)]
pub enum MaybeRelocatable {
    Int(Felt),
    RelocatableValue(Relocatable),
}

/// The value a data cell stands for.
pub enum CellValue {
    Int(nat),
    Address { segment: int, offset: nat },
}

impl CellValue {
    pub open spec fn int_value(self) -> nat
        recommends
            self is Int,
    {
        match self {
            CellValue::Int(v) => v,
            CellValue::Address { .. } => arbitrary(),
        }
    }
}

impl View for MaybeRelocatable {
    type V = CellValue;

    open spec fn view(&self) -> CellValue {
        match self {
            MaybeRelocatable::Int(f) => CellValue::Int(f@),
            MaybeRelocatable::RelocatableValue(a) => CellValue::Address {
                segment: a.segment_index as int,
                offset: a.offset as nat,
            },
        }
    }
}

impl DeepView for MaybeRelocatable {
    type V = CellValue;

    open spec fn deep_view(&self) -> CellValue {
        self.view()
    }
}

/// The minimal program representation that is hashed: the entry point
/// offset, the builtin names in declaration order as their ASCII bytes, and
/// the flat data segment.
pub struct StrippedProgram {
    pub data: Vec<MaybeRelocatable>,
    pub builtins: Vec<Vec<u8>>,
    pub main: usize,
}

/// What a stripped program denotes.
pub struct ProgramView {
    pub data: Seq<CellValue>,
    pub builtins: Seq<Seq<u8>>,
    pub main: nat,
}

impl View for StrippedProgram {
    type V = ProgramView;

    open spec fn view(&self) -> ProgramView {
        ProgramView {
            data: self.data.deep_view(),
            builtins: self.builtins.deep_view(),
            main: self.main as nat,
        }
    }
}

impl StrippedProgram {
    /// Every plain data cell holds a well-formed field element.
    pub open spec fn wf(&self) -> bool {
        forall|i: int|
            0 <= i < self.data@.len() ==> ((#[trigger] self.data@[i]) matches
            MaybeRelocatable::Int(f) ==> f.wf())
    }
}

/// The reducer's failure: a chain over no elements is not defined.
#[derive(Debug, PartialEq, Eq)]
pub enum HashChainError {
    EmptyData,
}

/// What can go wrong while a program is encoded and hashed.
#[derive(Debug, PartialEq, Eq)]
pub enum ProgramHashError {
    /// The encoded sequence was empty. The encoder always prepends a length
    /// element, so this guards an internal invariant and is never produced.
    HashChain(HashChainError),
    /// A builtin name too long to be read as one field element; carries the
    /// offending name.
    InvalidProgramBuiltin(Vec<u8>),
    /// A data cell held a relocatable reference instead of a plain value.
    InvalidProgramData,
    /// A value handed in from the loader was not a canonical field element.
    /// Conversions inside this crate always are, so this too is never
    /// produced here; the loading edge maps its conversion failures to it.
    Felt252ToFieldElementConversionFailed,
}

/// The ASCII bytes of the suffix `_builtin`.
pub open spec fn builtin_suffix() -> Seq<u8> {
    seq![0x5fu8, 0x62u8, 0x75u8, 0x69u8, 0x6cu8, 0x74u8, 0x69u8, 0x6eu8]
}

pub open spec fn ends_with_builtin_suffix(name: Seq<u8>) -> bool {
    name.len() >= 8 && name.skip(name.len() - 8) == builtin_suffix()
}

/// A builtin name with the trailing `_builtin` suffix, if any, removed.
pub open spec fn stripped_builtin(name: Seq<u8>) -> Seq<u8> {
    if ends_with_builtin_suffix(name) {
        name.take(name.len() - 8)
    } else {
        name
    }
}

/// A builtin name can be encoded when its stripped form fits in one field
/// element, that is, in 31 bytes.
pub open spec fn builtin_encodable(name: Seq<u8>) -> bool {
    stripped_builtin(name).len() <= 31
}

/// The field element value a builtin name encodes to: its stripped ASCII
/// bytes read as one big-endian integer.
pub open spec fn builtin_value(name: Seq<u8>) -> nat {
    be_val(stripped_builtin(name))
}

pub open spec fn all_builtins_encodable(builtins: Seq<Seq<u8>>) -> bool {
    forall|i: int| 0 <= i < builtins.len() ==> builtin_encodable(#[trigger] builtins[i])
}

pub open spec fn all_data_int(data: Seq<CellValue>) -> bool {
    forall|i: int| 0 <= i < data.len() ==> (#[trigger] data[i]) is Int
}

/// The values of a sequence of field elements.
pub open spec fn felt_values(s: Seq<Felt>) -> Seq<nat> {
    Seq::new(s.len(), |i: int| s[i]@)
}

pub open spec fn builtin_values(builtins: Seq<Seq<u8>>) -> Seq<nat> {
    Seq::new(builtins.len(), |i: int| builtin_value(builtins[i]))
}

pub open spec fn data_values(data: Seq<CellValue>) -> Seq<nat> {
    Seq::new(data.len(), |i: int| data[i].int_value())
}

/// The canonical body of a program: the header (version tag, entry point,
/// builtin count), then the encoded builtin names in order, then the data
/// cells in order.
pub open spec fn program_body(p: ProgramView, version: nat) -> Seq<nat> {
    seq![version, p.main, p.builtins.len() as nat] + builtin_values(p.builtins) + data_values(
        p.data,
    )
}

/// The full hashed sequence: the body's length first, then the body, so that
/// the length itself is part of the hashed content.
pub open spec fn program_hash_input(p: ProgramView, version: nat) -> Seq<nat> {
    seq![program_body(p, version).len() as nat] + program_body(p, version)
}

/// The hash chain over a non-empty sequence: the last element alone is its
/// own chain, and each earlier element is hashed with the chain of what
/// follows it, so the fold is right-associative.
pub open spec fn hash_chain(s: Seq<nat>) -> nat
    recommends
        s.len() >= 1,
    decreases s.len(),
{
    if s.len() <= 1 {
        s[0]
    } else {
        pedersen_of(s[0], hash_chain(s.drop_first()))
    }
}

/// The program hash: the chain value of the full encoded sequence.
pub open spec fn program_hash_value(p: ProgramView, version: nat) -> nat {
    hash_chain(program_hash_input(p, version))
}

/// Determinism: the program hash is a function of the program's denotation
/// and the version tag alone, so two computations over equal inputs yield the
/// same value.
pub proof fn lemma_program_hash_deterministic(
    p1: ProgramView,
    v1: nat,
    p2: ProgramView,
    v2: nat,
)
    requires
        p1 == p2,
        v1 == v2,
    ensures
        program_hash_value(p1, v1) == program_hash_value(p2, v2),
{
}

/// Non-degeneracy: a program with no builtins and no data still encodes to a
/// non-empty sequence — the length element and the three header elements — so
/// hashing it is owed to succeed.
pub proof fn lemma_empty_program_encodes(p: ProgramView, version: nat)
    requires
        p.builtins.len() == 0,
        p.data.len() == 0,
    ensures
        all_builtins_encodable(p.builtins),
        all_data_int(p.data),
        program_body(p, version).len() == 3,
        program_hash_input(p, version).len() == 4,
{
}

/// The length prefix participates in the hash: two encodings whose bodies
/// differ in length differ already at the first element of the hashed
/// sequence, whatever the bodies hold.
pub proof fn lemma_length_prefix_distinguishes(
    p1: ProgramView,
    v1: nat,
    p2: ProgramView,
    v2: nat,
)
    requires
        program_body(p1, v1).len() != program_body(p2, v2).len(),
    ensures
        program_hash_input(p1, v1)[0] != program_hash_input(p2, v2)[0],
        program_hash_input(p1, v1) != program_hash_input(p2, v2),
{
    assert(program_hash_input(p1, v1)[0] == program_body(p1, v1).len() as nat);
    assert(program_hash_input(p2, v2)[0] == program_body(p2, v2).len() as nat);
}

/// Suffix stripping: a name that does not itself end in `_builtin` encodes
/// exactly as the same name with that suffix appended.
pub proof fn lemma_builtin_suffix_stripped(name: Seq<u8>)
    requires
        !ends_with_builtin_suffix(name),
    ensures
        builtin_value(name + builtin_suffix()) == builtin_value(name),
        builtin_encodable(name + builtin_suffix()) == builtin_encodable(name),
{
    let full = name + builtin_suffix();
    assert(builtin_suffix().len() == 8);
    assert(full.skip(full.len() - 8) =~= builtin_suffix());
    assert(full.take(full.len() - 8) =~= name);
}

/// Folds a non-empty sequence of field elements right to left through the
/// Pedersen hash; an empty sequence is an error, never a default value.
pub fn compute_hash_chain(data: Vec<Felt>) -> (r: Result<Felt, HashChainError>)
    requires
        forall|i: int| 0 <= i < data@.len() ==> (#[trigger] data@[i]).wf(),
    ensures
        r is Ok <==> data@.len() >= 1,
        (r matches Err(e) ==> e is EmptyData),
        (r matches Ok(f) ==> f.wf() && f@ == hash_chain(felt_values(data@))),
{
    let ghost orig = data@;
    let ghost values = felt_values(data@);
    let mut v = data;
    match v.pop() {
        None => Err(HashChainError::EmptyData),
        Some(last) => {
            let mut chain = last;
            proof {
                assert(v@ =~= orig.take(v@.len() as int));
                assert(values.skip(orig.len() - 1) =~= seq![orig[orig.len() - 1]@]);
            }
            while v.len() > 0
                invariant
                    orig.len() >= 1,
                    v@.len() < orig.len(),
                    v@ =~= orig.take(v@.len() as int),
                    forall|i: int| 0 <= i < orig.len() ==> (#[trigger] orig[i]).wf(),
                    values == felt_values(orig),
                    chain.wf(),
                    chain@ == hash_chain(values.skip(v@.len() as int)),
                decreases v@.len(),
            {
                let ghost k = v@.len() as int;
                let x = v.pop().unwrap();
                proof {
                    assert(x == orig[k - 1]);
                    assert(v@ =~= orig.take(k - 1));
                }
                chain = pedersen(&x, &chain);
                proof {
                    assert(values.skip(k - 1).drop_first() =~= values.skip(k));
                    assert(values.skip(k - 1)[0] == orig[k - 1]@);
                    assert(values.skip(k - 1).len() >= 2);
                }
            }
            proof {
                assert(values.skip(0) =~= values);
            }
            Ok(chain)
        },
    }
}

/// Encodes a builtin name: strips one trailing `_builtin` suffix if present
/// and reads the remaining ASCII bytes as one big-endian field element; a
/// stripped name longer than 31 bytes does not fit and is rejected, naming
/// the offending builtin.
pub fn builtin_to_field_element(builtin: &Vec<u8>) -> (r: Result<Felt, ProgramHashError>)
    ensures
        r is Ok <==> builtin_encodable(builtin@),
        (r matches Ok(f) ==> f.wf() && f@ == builtin_value(builtin@)),
        (r matches Err(e) ==> e matches ProgramHashError::InvalidProgramBuiltin(name) && name@
            == builtin@),
{
    let len = builtin.len();
    let stripped_len = if has_builtin_suffix(builtin) {
        len - 8
    } else {
        len
    };
    if stripped_len > 31 {
        return Err(ProgramHashError::InvalidProgramBuiltin(crate::felt::clone_bytes(builtin)));
    }
    let mut digits: Vec<u8> = Vec::new();
    let mut i: usize = 0;
    while i < stripped_len
        invariant
            i <= stripped_len,
            stripped_len <= builtin@.len(),
            digits@ =~= builtin@.take(i as int),
        decreases stripped_len - i,
    {
        let b = builtin[i];
        digits.push(b);
        proof {
            assert(digits@ =~= builtin@.take(i + 1));
        }
        i = i + 1;
    }
    proof {
        assert(digits@ =~= stripped_builtin(builtin@));
    }
    Ok(Felt::from_be_digits(&digits))
}

/// True exactly when the name ends with the ASCII bytes `_builtin`.
fn has_builtin_suffix(name: &Vec<u8>) -> (r: bool)
    ensures
        r == ends_with_builtin_suffix(name@),
{
    if name.len() < 8 {
        return false;
    }
    let k = name.len() - 8;
    let r = name[k] == 0x5f && name[k + 1] == 0x62 && name[k + 2] == 0x75 && name[k + 3] == 0x69
        && name[k + 4] == 0x6c && name[k + 5] == 0x74 && name[k + 6] == 0x69 && name[k + 7] == 0x6e;
    proof {
        let tail = name@.skip(k as int);
        assert(tail.len() == 8);
        if r {
            assert(tail =~= builtin_suffix());
        } else {
            assert(tail != builtin_suffix()) by {
                if tail == builtin_suffix() {
                    assert(name@[k as int] == tail[0]);
                    assert(name@[k + 1] == tail[1]);
                    assert(name@[k + 2] == tail[2]);
                    assert(name@[k + 3] == tail[3]);
                    assert(name@[k + 4] == tail[4]);
                    assert(name@[k + 5] == tail[5]);
                    assert(name@[k + 6] == tail[6]);
                    assert(name@[k + 7] == tail[7]);
                }
            }
        }
    }
    r
}

/// Converts a data cell into the field element it holds; a relocatable
/// reference is a data-integrity violation, not a value.
pub fn maybe_relocatable_to_field_element(cell: &MaybeRelocatable) -> (r: Result<
    Felt,
    ProgramHashError,
>)
    requires
        (cell matches MaybeRelocatable::Int(f) ==> f.wf()),
    ensures
        r is Ok <==> cell@ is Int,
        (r matches Ok(f) ==> f.wf() && f@ == cell@.int_value()),
        (r matches Err(e) ==> e is InvalidProgramData),
{
    match cell {
        MaybeRelocatable::Int(f) => Ok(f.clone()),
        MaybeRelocatable::RelocatableValue(_) => Err(ProgramHashError::InvalidProgramData),
    }
}

/// Computes the hash that identifies a program: encodes the version tag, the
/// entry point, the builtin list and the data segment into one length-prefixed
/// sequence of field elements and folds it through the hash chain.
pub fn compute_program_hash_chain(program: &StrippedProgram, bootloader_version: usize) -> (r:
    Result<Felt, ProgramHashError>)
    requires
        program.wf(),
    ensures
        r is Ok <==> (all_builtins_encodable(program@.builtins) && all_data_int(program@.data)),
        (r matches Ok(f) ==> f.wf() && f@ == program_hash_value(
            program@,
            bootloader_version as nat,
        )),
        !all_builtins_encodable(program@.builtins) ==> (exists|i: int|
            0 <= i < program@.builtins.len() && !builtin_encodable(#[trigger] program@.builtins[i])
                && (forall|j: int| 0 <= j < i ==> builtin_encodable(#[trigger] program@.builtins[j]))
                && (r matches Err(ProgramHashError::InvalidProgramBuiltin(name)) && name@
                == program@.builtins[i])),
        (all_builtins_encodable(program@.builtins) && !all_data_int(program@.data)) ==> (
        r matches Err(e) && e is InvalidProgramData),
{
    let ghost pv = program@;
    let ghost version = bootloader_version as nat;
    let mut body: Vec<Felt> = Vec::new();
    body.push(Felt::from_usize(bootloader_version));
    body.push(Felt::from_usize(program.main));
    body.push(Felt::from_usize(program.builtins.len()));
    let ghost header = seq![version, pv.main, pv.builtins.len() as nat];
    let mut i: usize = 0;
    while i < program.builtins.len()
        invariant
            program.wf(),
            pv == program@,
            version == bootloader_version as nat,
            header == seq![version, pv.main, pv.builtins.len() as nat],
            i <= pv.builtins.len(),
            body@.len() == 3 + i,
            forall|k: int| 0 <= k < body@.len() ==> (#[trigger] body@[k]).wf(),
            felt_values(body@) == header + builtin_values(pv.builtins.take(i as int)),
            forall|j: int| 0 <= j < i ==> builtin_encodable(#[trigger] pv.builtins[j]),
        decreases pv.builtins.len() - i,
    {
        proof {
            assert(pv.builtins[i as int] == program.builtins@[i as int]@);
        }
        let felt = match builtin_to_field_element(&program.builtins[i]) {
            Ok(f) => f,
            Err(e) => {
                return Err(e);
            },
        };
        let ghost prev = body@;
        let ghost fv = felt@;
        body.push(felt);
        proof {
            assert(felt_values(prev.push(felt)) =~= felt_values(prev).push(fv));
            assert(builtin_values(pv.builtins.take(i + 1)) =~= builtin_values(
                pv.builtins.take(i as int),
            ).push(builtin_value(pv.builtins[i as int])));
            assert((header + builtin_values(pv.builtins.take(i as int))).push(fv) =~= header
                + builtin_values(pv.builtins.take(i as int)).push(fv));
            assert(felt_values(body@) == header + builtin_values(pv.builtins.take(i + 1)));
        }
        i = i + 1;
    }
    proof {
        assert(pv.builtins.take(pv.builtins.len() as int) =~= pv.builtins);
    }
    let ghost with_builtins = header + builtin_values(pv.builtins);
    let mut d: usize = 0;
    while d < program.data.len()
        invariant
            program.wf(),
            pv == program@,
            version == bootloader_version as nat,
            with_builtins == header + builtin_values(pv.builtins),
            all_builtins_encodable(pv.builtins),
            d <= pv.data.len(),
            body@.len() == 3 + pv.builtins.len() + d,
            forall|k: int| 0 <= k < body@.len() ==> (#[trigger] body@[k]).wf(),
            felt_values(body@) == with_builtins + data_values(pv.data.take(d as int)),
            forall|j: int| 0 <= j < d ==> (#[trigger] pv.data[j]) is Int,
        decreases pv.data.len() - d,
    {
        proof {
            assert(pv.data[d as int] == program.data@[d as int]@);
        }
        let felt = match maybe_relocatable_to_field_element(&program.data[d]) {
            Ok(f) => f,
            Err(e) => {
                return Err(e);
            },
        };
        let ghost prev = body@;
        let ghost fv = felt@;
        body.push(felt);
        proof {
            assert(felt_values(prev.push(felt)) =~= felt_values(prev).push(fv));
            assert(data_values(pv.data.take(d + 1)) =~= data_values(pv.data.take(d as int)).push(
                pv.data[d as int].int_value(),
            ));
            assert((with_builtins + data_values(pv.data.take(d as int))).push(fv) =~= with_builtins
                + data_values(pv.data.take(d as int)).push(fv));
            assert(felt_values(body@) == with_builtins + data_values(pv.data.take(d + 1)));
        }
        d = d + 1;
    }
    proof {
        assert(pv.data.take(pv.data.len() as int) =~= pv.data);
        assert(felt_values(body@) == program_body(pv, version));
    }
    let n = body.len();
    let mut elements: Vec<Felt> = Vec::new();
    elements.push(Felt::from_usize(n));
    elements.append(&mut body);
    proof {
        assert(felt_values(elements@) =~= program_hash_input(pv, version));
    }
    match compute_hash_chain(elements) {
        Ok(f) => Ok(f),
        Err(e) => {
            proof {
                assert(false);
            }
            Err(ProgramHashError::HashChain(e))
        },
    }
}

} // verus!
