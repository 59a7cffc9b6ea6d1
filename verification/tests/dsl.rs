use t0_gpu::block_dsl::{AutoCompiledKernel, BlockKernel};
use t0_gpu::compile::T0Kernel;
use t0_gpu::dsl::{CompiledKernel, KernArgType};

#[test]
fn compiled_kernels_keep_what_was_declared() {
    let mut k = T0Kernel::new("pack");
    let _x = k.arg_ptr("x");
    let _n = k.arg_u32("n");
    let _s = k.arg_f32("s");
    k.endpgm();
    let c = CompiledKernel::new(&k, "packed", vec![1, 2, 3], [64, 2, 1], 512);
    assert_eq!(c.elf, vec![1, 2, 3]);
    assert_eq!((c.kernarg_size, c.workgroup_size, c.lds_size), (16, [64, 2, 1], 512));
    assert_eq!(c.name, "packed");
    let args: Vec<(&str, KernArgType, usize)> =
        c.args.iter().map(|a| (a.name.as_str(), a.kind, a.offset)).collect();
    assert_eq!(
        args,
        [("x", KernArgType::Ptr, 0), ("n", KernArgType::U32, 8), ("s", KernArgType::F32, 12)]
    );
    let auto = AutoCompiledKernel { kernel: c, grid: [4, 1, 1] };
    assert_eq!(auto.grid[0], 4);
}

#[test]
fn block_kernels_are_launched_with_their_own_workgroup() {
    let block = BlockKernel::new("rows", 256);
    let mut lowered = T0Kernel::new("lowered");
    let _x = lowered.arg_ptr("x");
    lowered.endpgm();
    let [x, y] = block.get_block_size_2d();
    let c = block.compiled(&lowered, vec![7], 1024);
    assert_eq!((c.workgroup_size, c.lds_size), ([x, y, 1], 1024));
    assert_eq!((c.name.as_str(), c.elf.as_slice()), ("rows", &[7u8][..]));
    assert_eq!((c.args.len(), c.args[0].name.as_str(), c.kernarg_size), (1, "x", 8));
}
