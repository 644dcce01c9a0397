use glass::engine::ExportSig;
use glass::engine::ModuleInfo;
use glass::engine::WasiExecutionContextBuilder;
use glass::engine::WasiExecutionContext;
use glass::error::GuestTrap;
use glass::http_engine::FreshGuest;
use glass::memory::GuestMemory;
use glass::ping::DeislabsPingV01Data;
use glass::ping::Ping;
use glass::ping::PingEngine;
use glass::ping::PingExecutor;
use glass::ping::PingGuest;
use glass::ping::PingTrigger;
use glass::ping::TimerTrigger;

const RET: u32 = 8;

struct PongGuest;

impl FreshGuest for PongGuest {
    fn fresh() -> Self {
        PongGuest
    }
}

impl PingGuest for PongGuest {
    fn ping(&mut self, mem: &mut GuestMemory, ptr: u32, len: u32) -> Result<u32, GuestTrap> {
        let input = mem.read_bytes(ptr, len).map_err(|_| GuestTrap {})?;
        mem.free(ptr, len, 1).map_err(|_| GuestTrap {})?;
        let mut out = b"PONG: ".to_vec();
        out.extend_from_slice(&input);
        let p = mem.allocate(out.len() as u32, 1).map_err(|_| GuestTrap {})?;
        mem.write_bytes(p, &out).map_err(|_| GuestTrap {})?;
        mem.store_u32(RET, p).map_err(|_| GuestTrap {})?;
        mem.store_u32(RET + 4, out.len() as u32).map_err(|_| GuestTrap {})?;
        Ok(RET)
    }
}

fn build_template() -> WasiExecutionContext<DeislabsPingV01Data> {
    let cfg = glass::Config::new(vec![], vec![], None);
    let mut b = WasiExecutionContextBuilder::new(&cfg).unwrap();
    b.add_all().unwrap();
    let module = ModuleInfo {
        imports: Vec::new(),
        exports: vec![
            ("canonical_abi_realloc".to_string(), ExportSig::Func(4, 1)),
            ("canonical_abi_free".to_string(), ExportSig::Func(3, 0)),
            ("ping".to_string(), ExportSig::Func(2, 1)),
            ("memory".to_string(), ExportSig::Memory),
        ],
        memory_size: 65536,
    };
    b.build("entry.wasm".to_string(), module).unwrap()
}

fn engine() -> PingEngine<PongGuest> {
    PingEngine { inner: build_template(), guest: core::marker::PhantomData }
}

#[test]
fn test_c_ping() {
    let input =
        "Are you even a Roman emperor if you are not a delusional megalomaniac?".to_string();
    let exp = format!("PONG: {}", input);
    let pe = engine();
    let res = PingExecutor::execute(&pe, input).unwrap();
    assert_eq!(res, exp);
}

#[test]
fn integration_test_c_ping() {
    let input =
        "Are you even a Roman emperor if you are not a delusional megalomaniac?".to_string();
    let exp = format!("PONG: {}", input);
    let pe = engine();
    let res = Ping::execute(&pe, input).unwrap();
    assert_eq!(res, exp);
}

#[test]
fn scenario_ping_prefixes_input() {
    let pe = engine();
    let res = PingExecutor::execute(&pe, "hello".to_string()).unwrap();
    assert_eq!(res, "PONG: hello");
}

#[test]
fn ping_handles_multi_byte_input() {
    let pe = engine();
    let res = PingExecutor::execute(&pe, "z\u{fc}rich \u{1f44d}".to_string()).unwrap();
    assert_eq!(res, "PONG: z\u{fc}rich \u{1f44d}");
}

#[test]
fn repeated_pings_leak_no_guest_allocation() {
    let template = build_template();
    let iface = glass::ping::DeislabsPingV01::new(&template.module.exports).unwrap();
    let mut guest = PongGuest;
    let mut n = 0usize;
    while n < 10_000 {
        let mut mem = GuestMemory::new(4096);
        let res = iface.ping(&mut guest, &mut mem, "tick").unwrap();
        assert_eq!(res, "PONG: tick");
        assert_eq!(mem.live_count(), 0);
        n += 1;
    }
}

#[test]
fn triggers_hand_the_stamp_to_the_executor() {
    let pe = engine();
    let t = PingTrigger { interval_seconds: 2 };
    assert_eq!(t.tick(&pe, "now".to_string()).unwrap(), "PONG: now");
    let t2 = TimerTrigger { interval_seconds: 2 };
    assert_eq!(t2.tick(&pe, "later".to_string()).unwrap(), "PONG: later");
}
