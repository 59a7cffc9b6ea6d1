//! Compiled kernels: a binary, and what it takes to launch it.
use vstd::prelude::*;

use crate::compile::T0Kernel;
use crate::ir::{ArgKind, KernArgText};

verus! {

/// What an argument of a compiled kernel is.
#[derive(Clone, Copy, Debug, PartialEq, Eq, Structural)]
pub enum KernArgType {
    Ptr,
    U32,
    F32,
}

/// An argument of a compiled kernel. `S` is how names are written down.
#[derive(Debug)]
pub struct KernArgMeta<S = String> {
    pub name: S,
    pub kind: KernArgType,
    /// Where it lies in the argument buffer.
    pub offset: usize,
}

impl View for KernArgMeta<String> {
    type V = KernArgMeta<Seq<char>>;

    open spec fn view(&self) -> KernArgMeta<Seq<char>> {
        KernArgMeta { name: self.name@, kind: self.kind, offset: self.offset }
    }
}

/// A kernel that is ready to launch.
#[derive(Debug)]
pub struct CompiledKernel {
    /// The binary.
    pub elf: Vec<u8>,
    /// Size of the argument buffer in bytes.
    pub kernarg_size: usize,
    /// Threads per workgroup, by dimension.
    pub workgroup_size: [u32; 3],
    /// Bytes of the local data share.
    pub lds_size: u32,
    pub name: String,
    pub args: Vec<KernArgMeta>,
}

/// The kind of a declared argument.
pub open spec fn type_of(kind: ArgKind) -> KernArgType {
    match kind {
        ArgKind::Ptr => KernArgType::Ptr,
        ArgKind::U32 => KernArgType::U32,
        ArgKind::F32 => KernArgType::F32,
    }
}

/// What is kept of a declared argument.
pub open spec fn meta_of(a: KernArgText) -> KernArgMeta<Seq<char>> {
    KernArgMeta { name: a.name, kind: type_of(a.kind), offset: a.offset as usize }
}

/// The arguments of a compiled kernel as text.
pub open spec fn meta_texts(args: Seq<KernArgMeta>) -> Seq<KernArgMeta<Seq<char>>> {
    args.map_values(|a: KernArgMeta| a@)
}

/// The arguments that a kernel declares.
fn metas(kernel: &T0Kernel) -> (r: Vec<KernArgMeta>)
    ensures
        meta_texts(r@) == kernel@.args.map_values(|a: KernArgText| meta_of(a)),
{
    let args = kernel.args();
    let mut out: Vec<KernArgMeta> = Vec::new();
    let mut i: usize = 0;
    while i < args.len()
        invariant
            i <= args@.len(),
            kernel@.args.len() == args@.len(),
            forall|k: int| 0 <= k < args@.len() ==> #[trigger] kernel@.args[k] == args@[k]@,
            out@.len() == i,
            forall|k: int| 0 <= k < i ==> (#[trigger] out@[k])@ == meta_of(kernel@.args[k]),
        decreases args@.len() - i,
    {
        let kind = match args[i].kind {
            ArgKind::Ptr => KernArgType::Ptr,
            ArgKind::U32 => KernArgType::U32,
            ArgKind::F32 => KernArgType::F32,
        };
        assert(kernel@.args[i as int] == args@[i as int]@);
        out.push(KernArgMeta { name: args[i].name.clone(), kind, offset: args[i].offset as usize });
        i = i + 1;
    }
    assert(meta_texts(out@) =~= kernel@.args.map_values(|a: KernArgText| meta_of(a)));
    out
}

impl CompiledKernel {
    /// Puts a binary together with what its kernel declares.
    pub fn new(
        kernel: &T0Kernel,
        name: &str,
        elf: Vec<u8>,
        workgroup_size: [u32; 3],
        lds_size: u32,
    ) -> (r: Self)
        ensures
            r.elf == elf,
            r.kernarg_size == kernel@.kernarg_size,
            r.workgroup_size == workgroup_size,
            r.lds_size == lds_size,
            r.name@ == name@,
            meta_texts(r.args@) == kernel@.args.map_values(|a: KernArgText| meta_of(a)),
    {
        CompiledKernel {
            elf,
            kernarg_size: kernel.kernarg_size() as usize,
            workgroup_size,
            lds_size,
            name: name.to_string(),
            args: metas(kernel),
        }
    }
}

} // verus!
