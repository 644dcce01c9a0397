use glass::engine::Context;
use glass::engine::WasiExecutionContextBuilder;
use glass::engine::ModuleInfo;
use glass::memory::GuestMemory;
use glass::memory::STATIC_RESERVE;
use glass::registry::RegistryHelper;
use glass::EngineError;

#[test]
fn allocator_hands_out_disjoint_regions() {
    let mut mem = GuestMemory::new(4096);
    let a = mem.allocate(10, 1).unwrap();
    let b = mem.allocate(10, 1).unwrap();
    assert!(a >= STATIC_RESERVE);
    assert!(b >= a + 10);
    assert_eq!(mem.live_count(), 2);
}

#[test]
fn free_removes_exactly_one_region() {
    let mut mem = GuestMemory::new(4096);
    let a = mem.allocate(16, 4).unwrap();
    let b = mem.allocate(16, 4).unwrap();
    mem.free(a, 16, 4).unwrap();
    assert_eq!(mem.live_count(), 1);
    assert_eq!(mem.free(a, 16, 4), Err(EngineError::NotLive));
    mem.free(b, 16, 4).unwrap();
    assert_eq!(mem.live_count(), 0);
}

#[test]
fn out_of_bounds_access_is_a_hard_failure() {
    let mut mem = GuestMemory::new(64);
    assert_eq!(mem.read_bytes(60, 8).err(), Some(EngineError::OutOfBounds));
    assert_eq!(mem.write_bytes(63, &vec![1, 2]).err(), Some(EngineError::OutOfBounds));
    assert_eq!(mem.load_u32(62).err(), Some(EngineError::OutOfBounds));
    assert_eq!(mem.allocate(65, 1).err(), Some(EngineError::AllocFailed));
}

#[test]
fn word_store_load_round_trip() {
    let mut mem = GuestMemory::new(256);
    mem.store_u32(12, 0xdead_beef).unwrap();
    assert_eq!(mem.load_u32(12).unwrap(), 0xdead_beef);
    mem.store_u32(16, 7).unwrap();
    assert_eq!(mem.load_u32(12).unwrap(), 0xdead_beef);
}

#[test]
fn byte_write_read_round_trip() {
    let mut mem = GuestMemory::new(256);
    let data = vec![9u8, 8, 7, 6, 5];
    mem.write_bytes(100, &data).unwrap();
    assert_eq!(mem.read_bytes(100, 5).unwrap(), data);
    assert_eq!(mem.read_bytes(99, 1).unwrap(), vec![0u8]);
}

#[test]
fn prepared_contexts_are_fresh_and_independent() {
    let cfg = glass::Config::new(
        vec![("K".to_string(), "V".to_string())],
        vec![("g".to_string(), "/h".to_string())],
        None,
    );
    let mut b = WasiExecutionContextBuilder::new(&cfg).unwrap();
    b.add_all().unwrap();
    let module = ModuleInfo { imports: Vec::new(), exports: Vec::new(), memory_size: 2048 };
    let t = b.build::<u64>("entry.wasm".to_string(), module).unwrap();
    let (c1, m1) = t.prepare_exec(Some(1u64)).unwrap();
    let (mut c2, m2) = t.prepare_exec(Some(2u64)).unwrap();
    assert_eq!(c1.runtime_data, Some(1));
    assert_eq!(c2.runtime_data, Some(2));
    let w1 = c1.wasi_ctx.as_ref().unwrap();
    let w2 = c2.wasi_ctx.as_ref().unwrap();
    assert_eq!(w1.vars, w2.vars);
    assert_eq!(w1.vars, vec![("K".to_string(), "V".to_string())]);
    assert_eq!(m1.live_count(), 0);
    assert_eq!(m2.live_count(), 0);
    // Mutating one invocation's context leaves the other's untouched.
    c2.runtime_data = Some(99);
    c2.wasi_ctx = None;
    assert_eq!(c1.runtime_data, Some(1));
    assert!(c1.wasi_ctx.is_some());
    let c3: Context<u64> = t.prepare_exec(None).unwrap().0;
    assert!(c3.wasi_ctx.is_some());
    assert_eq!(c3.runtime_data, None);
}

#[test]
fn context_accessors_report_missing_capabilities() {
    let mut ctx: Context<u64> = Context { wasi_ctx: None, nn_ctx: None, runtime_data: Some(5) };
    assert_eq!(ctx.wasi().err(), Some(EngineError::NotConfigured));
    assert_eq!(ctx.nn().err(), Some(EngineError::NotConfigured));
    *ctx.data().unwrap() = 6;
    assert_eq!(ctx.runtime_data, Some(6));
}

#[test]
fn registry_paths_are_fixed() {
    assert_eq!(RegistryHelper::cache_dir(), ".wasi");
    assert_eq!(RegistryHelper::linking_path(), ".wasi/_linking");
    assert_eq!(RegistryHelper::entrypoint_path(), ".wasi/_linking/entrypoint.wasm");
}
