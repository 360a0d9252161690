//! The command surface's plain data and decisions: bootloader selection,
//! verifier compatibility, configuration defaults, and the validation rules
//! for proving arguments. Argument parsing itself and process exit stay with
//! the binary around this library.

use vstd::prelude::*;
use vstd::string::StrSliceExecFns;
use vstd::utf8::encode_utf8_decode_utf8;

verus! {

/// Which external verifier a proof is aimed at.
#[derive(Clone, Copy, Debug, PartialEq, Eq, Structural)]
pub enum Verifier {
    Stone,
    L1,
}

/// The bootloader program to run programs under: one of the two embedded
/// versions, or one loaded from a custom path.
#[derive(Clone, Debug, PartialEq, Eq)]
pub enum Bootloader {
    V0_12_3,
    V0_13_0,
    Custom(String),
}

impl Bootloader {
    /// The newest embedded bootloader.
    pub fn latest() -> (r: Self)
        ensures
            r is V0_13_0,
    {
        Self::V0_13_0
    }

    /// The newest bootloader the given verifier accepts.
    pub fn latest_compatible(verifier: &Verifier) -> (r: Self)
        ensures
            verifier is Stone ==> r is V0_13_0,
            verifier is L1 ==> r is V0_12_3,
    {
        match verifier {
            Verifier::Stone => Self::latest(),
            Verifier::L1 => Self::V0_12_3,
        }
    }

    /// Reads a bootloader choice: one of the two known version numbers, and
    /// any other text as a custom bootloader path. Never fails.
    pub fn from_str(s: &str) -> (r: Result<Bootloader, String>)
        ensures
            r is Ok,
            (r matches Ok(b) ==> (if s@ == "0.12.3"@ {
                b is V0_12_3
            } else if s@ == "0.13.0"@ {
                b is V0_13_0
            } else {
                b matches Bootloader::Custom(p) && p@ == s@
            })),
    {
        if str_eq(s, "0.12.3") {
            Ok(Self::V0_12_3)
        } else if str_eq(s, "0.13.0") {
            Ok(Self::V0_13_0)
        } else {
            Ok(Self::Custom(s.to_owned()))
        }
    }
}

/// The optional configuration files of a prove invocation.
#[derive(Clone, Debug)]
pub struct ConfigArgs {
    pub prover_config_file: Option<String>,
    pub parameter_file: Option<String>,
    pub output_file: Option<String>,
    pub fact_topologies_file: Option<String>,
}

impl ConfigArgs {
    /// The file the proof is written to: the configured path, or `proof.json`
    /// where none was given.
    pub fn output_file(&self) -> (r: String)
        ensures
            (self.output_file matches Some(p) ==> r@ == p@),
            self.output_file is None ==> r@ == "proof.json"@,
    {
        match &self.output_file {
            Some(path) => path.clone(),
            None => "proof.json".to_owned(),
        }
    }
}

/// What a prove run executes: one bare program, or a bootloader over a list
/// of programs.
#[derive(Clone, Debug, PartialEq, Eq)]
pub enum Executable {
    BareMetal(String),
    WithBootloader(Bootloader, Vec<String>),
}

/// Arguments of a verify invocation.
#[derive(Clone, Debug)]
pub struct VerifyArgs {
    pub proof_file: String,
}

/// The argument conflicts that the prove command refuses in no-bootloader
/// mode.
#[derive(Clone, Copy, Debug, PartialEq, Eq, Structural)]
pub enum ProveArgsError {
    /// A fact-topologies file was named without the bootloader.
    FactTopologiesWithoutBootloader,
    /// A bootloader version was named without the bootloader.
    BootloaderVersionWithoutBootloader,
    /// More than one program was named without the bootloader.
    MultipleProgramsWithoutBootloader,
}

/// The deciding part of the prove command's argument handling. In
/// no-bootloader mode a fact-topologies file, an explicit bootloader version
/// and more than one program are each refused, in that order of checking.
/// Otherwise the executable is selected: the single bare program, or the
/// bootloader over all programs, choosing the newest one compatible with the
/// verifier (the Stone verifier where none was named) when no version was
/// given.
pub fn select_executable(
    with_bootloader: bool,
    bootloader: Option<Bootloader>,
    verifier: &Option<Verifier>,
    has_fact_topologies_file: bool,
    programs: Vec<String>,
) -> (r: Result<Executable, ProveArgsError>)
    requires
        programs@.len() >= 1,
    ensures
        r is Ok <==> (with_bootloader || (!has_fact_topologies_file && bootloader is None
            && programs@.len() == 1)),
        (r matches Ok(e) ==> (if with_bootloader {
            e matches Executable::WithBootloader(b, ps) && ps@ == programs@ && (match bootloader {
                Some(v) => b == v,
                None => (if verifier matches Some(Verifier::L1) {
                    b is V0_12_3
                } else {
                    b is V0_13_0
                }),
            })
        } else {
            e matches Executable::BareMetal(p) && p@ == programs@[0]@
        })),
        !with_bootloader && has_fact_topologies_file ==> (r matches Err(e) && e
            is FactTopologiesWithoutBootloader),
        !with_bootloader && !has_fact_topologies_file && bootloader is Some ==> (r matches Err(e)
            && e is BootloaderVersionWithoutBootloader),
        !with_bootloader && !has_fact_topologies_file && bootloader is None && programs@.len() > 1
            ==> (r matches Err(e) && e is MultipleProgramsWithoutBootloader),
{
    if !with_bootloader {
        if has_fact_topologies_file {
            return Err(ProveArgsError::FactTopologiesWithoutBootloader);
        }
        if bootloader.is_some() {
            return Err(ProveArgsError::BootloaderVersionWithoutBootloader);
        }
        if programs.len() > 1 {
            return Err(ProveArgsError::MultipleProgramsWithoutBootloader);
        }
        let mut programs = programs;
        let first = programs.remove(0);
        return Ok(Executable::BareMetal(first));
    }
    let chosen = match bootloader {
        Some(version) => version,
        None => {
            let v = match verifier {
                Some(v) => *v,
                None => Verifier::Stone,
            };
            Bootloader::latest_compatible(&v)
        },
    };
    Ok(Executable::WithBootloader(chosen, programs))
}

/// True exactly when the two strings hold the same characters.
fn str_eq(a: &str, b: &str) -> (r: bool)
    ensures
        r <==> a@ == b@,
{
    let av = a.as_bytes_vec();
    let bv = b.as_bytes_vec();
    let r = bytes_eq(&av, &bv);
    proof {
        if r {
            lemma_utf8_injective(a@, b@);
        }
    }
    r
}

/// True exactly when the two vectors hold the same bytes.
fn bytes_eq(a: &Vec<u8>, b: &Vec<u8>) -> (r: bool)
    ensures
        r <==> a@ == b@,
{
    if a.len() != b.len() {
        return false;
    }
    let mut i: usize = 0;
    while i < a.len()
        invariant
            i <= a@.len(),
            a@.len() == b@.len(),
            forall|j: int| 0 <= j < i ==> a@[j] == b@[j],
        decreases a@.len() - i,
    {
        if a[i] != b[i] {
            return false;
        }
        i = i + 1;
    }
    proof {
        assert(a@ =~= b@);
    }
    true
}

/// A character sequence is recovered from its UTF-8 bytes, so equal bytes
/// mean equal characters.
proof fn lemma_utf8_injective(a: Seq<char>, b: Seq<char>)
    requires
        vstd::utf8::encode_utf8(a) == vstd::utf8::encode_utf8(b),
    ensures
        a == b,
{
    encode_utf8_decode_utf8(a);
    encode_utf8_decode_utf8(b);
}

} // verus!
