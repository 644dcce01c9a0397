use glass::bindings::DeislabsHttpV01;
use glass::bindings::DeislabsHttpV01Data;
use glass::bindings::HandlerArgs;
use glass::bindings::HttpGuest;
use glass::bindings::HttpRequest;
use glass::bindings::Method;
use glass::engine::ExportSig;
use glass::engine::ModuleInfo;
use glass::engine::WasiExecutionContextBuilder;
use glass::engine::WasiExecutionContext;
use glass::error::EngineError;
use glass::error::GuestTrap;
use glass::http_engine::Engine;
use glass::http_engine::FreshGuest;
use glass::http_engine::HostRequest;
use glass::http_engine::HttpEngine;
use glass::memory::GuestMemory;

const RET: u32 = 8;

fn http_exports() -> Vec<(String, ExportSig)> {
    vec![
        ("canonical_abi_realloc".to_string(), ExportSig::Func(4, 1)),
        ("canonical_abi_free".to_string(), ExportSig::Func(3, 0)),
        ("handler".to_string(), ExportSig::Func(11, 1)),
        ("memory".to_string(), ExportSig::Memory),
    ]
}

fn http_module() -> ModuleInfo {
    ModuleInfo { imports: Vec::new(), exports: http_exports(), memory_size: 65536 }
}

fn build_template() -> WasiExecutionContext<DeislabsHttpV01Data> {
    let cfg = glass::Config::new(vec![], vec![], None);
    let mut b = WasiExecutionContextBuilder::new(&cfg).unwrap();
    b.add_all().unwrap();
    b.build("entry.wasm".to_string(), http_module()).unwrap()
}

fn free_request(mem: &mut GuestMemory, args: &HandlerArgs) -> Result<(), GuestTrap> {
    let mut i = 0u32;
    while i < args.headers_len {
        let off = args.headers_ptr + 8 * i;
        let p = mem.load_u32(off).map_err(|_| GuestTrap {})?;
        let l = mem.load_u32(off + 4).map_err(|_| GuestTrap {})?;
        mem.free(p, l, 1).map_err(|_| GuestTrap {})?;
        i += 1;
    }
    mem.free(args.headers_ptr, args.headers_len * 8, 4).map_err(|_| GuestTrap {})?;
    mem.free(args.uri_ptr, args.uri_len, 1).map_err(|_| GuestTrap {})?;
    if args.params_tag == 1 {
        let mut i = 0u32;
        while i < args.params_len {
            let off = args.params_ptr + 8 * i;
            let p = mem.load_u32(off).map_err(|_| GuestTrap {})?;
            let l = mem.load_u32(off + 4).map_err(|_| GuestTrap {})?;
            mem.free(p, l, 1).map_err(|_| GuestTrap {})?;
            i += 1;
        }
        mem.free(args.params_ptr, args.params_len * 8, 4).map_err(|_| GuestTrap {})?;
    }
    if args.body_tag == 1 {
        mem.free(args.body_ptr, args.body_len, 1).map_err(|_| GuestTrap {})?;
    }
    Ok(())
}

fn write_response(
    mem: &mut GuestMemory,
    status: u32,
    headers: Option<&[&str]>,
    body: Option<&[u8]>,
) -> Result<u32, GuestTrap> {
    mem.store_u32(RET, status).map_err(|_| GuestTrap {})?;
    match headers {
        None => {
            mem.store_u32(RET + 8, 0).map_err(|_| GuestTrap {})?;
        }
        Some(hs) => {
            let list = mem.allocate(8 * hs.len() as u32, 4).map_err(|_| GuestTrap {})?;
            let mut i = 0usize;
            while i < hs.len() {
                let bytes = hs[i].as_bytes().to_vec();
                let p = mem.allocate(bytes.len() as u32, 1).map_err(|_| GuestTrap {})?;
                mem.write_bytes(p, &bytes).map_err(|_| GuestTrap {})?;
                let off = list + 8 * i as u32;
                mem.store_u32(off, p).map_err(|_| GuestTrap {})?;
                mem.store_u32(off + 4, bytes.len() as u32).map_err(|_| GuestTrap {})?;
                i += 1;
            }
            mem.store_u32(RET + 8, 1).map_err(|_| GuestTrap {})?;
            mem.store_u32(RET + 16, list).map_err(|_| GuestTrap {})?;
            mem.store_u32(RET + 24, hs.len() as u32).map_err(|_| GuestTrap {})?;
        }
    }
    match body {
        None => {
            mem.store_u32(RET + 32, 0).map_err(|_| GuestTrap {})?;
        }
        Some(b) => {
            let bytes = b.to_vec();
            let p = mem.allocate(bytes.len() as u32, 1).map_err(|_| GuestTrap {})?;
            mem.write_bytes(p, &bytes).map_err(|_| GuestTrap {})?;
            mem.store_u32(RET + 32, 1).map_err(|_| GuestTrap {})?;
            mem.store_u32(RET + 40, p).map_err(|_| GuestTrap {})?;
            mem.store_u32(RET + 48, bytes.len() as u32).map_err(|_| GuestTrap {})?;
        }
    }
    Ok(RET)
}

struct EchoGuest;

impl FreshGuest for EchoGuest {
    fn fresh() -> Self {
        EchoGuest
    }
}

impl HttpGuest for EchoGuest {
    fn handler(&mut self, mem: &mut GuestMemory, args: HandlerArgs) -> Result<u32, GuestTrap> {
        let body = if args.body_tag == 1 {
            Some(mem.read_bytes(args.body_ptr, args.body_len).map_err(|_| GuestTrap {})?)
        } else {
            None
        };
        free_request(mem, &args)?;
        write_response(mem, 200, None, body.as_deref())
    }
}

struct RustHandlerGuest;

impl FreshGuest for RustHandlerGuest {
    fn fresh() -> Self {
        RustHandlerGuest
    }
}

impl HttpGuest for RustHandlerGuest {
    fn handler(&mut self, mem: &mut GuestMemory, args: HandlerArgs) -> Result<u32, GuestTrap> {
        free_request(mem, &args)?;
        let body =
            "Nerva, Trajan, Hadrian, Pius, and Marcus Aurelius are the five best emperors. Don't @ me.";
        write_response(mem, 200, Some(&["content-type:text/plain"]), Some(body.as_bytes()))
    }
}

struct CHandlerGuest;

impl FreshGuest for CHandlerGuest {
    fn fresh() -> Self {
        CHandlerGuest
    }
}

impl HttpGuest for CHandlerGuest {
    fn handler(&mut self, mem: &mut GuestMemory, args: HandlerArgs) -> Result<u32, GuestTrap> {
        free_request(mem, &args)?;
        write_response(mem, 418, None, Some("Octavian was a pretty good emperor".as_bytes()))
    }
}

struct OkGuest;

impl FreshGuest for OkGuest {
    fn fresh() -> Self {
        OkGuest
    }
}

impl HttpGuest for OkGuest {
    fn handler(&mut self, mem: &mut GuestMemory, args: HandlerArgs) -> Result<u32, GuestTrap> {
        free_request(mem, &args)?;
        write_response(mem, 200, None, Some(b"ok"))
    }
}

struct TeapotGuest;

impl FreshGuest for TeapotGuest {
    fn fresh() -> Self {
        TeapotGuest
    }
}

impl HttpGuest for TeapotGuest {
    fn handler(&mut self, mem: &mut GuestMemory, args: HandlerArgs) -> Result<u32, GuestTrap> {
        free_request(mem, &args)?;
        write_response(mem, 418, None, Some(b"teapot"))
    }
}

struct TrappingGuest;

impl FreshGuest for TrappingGuest {
    fn fresh() -> Self {
        TrappingGuest
    }
}

impl HttpGuest for TrappingGuest {
    fn handler(&mut self, _mem: &mut GuestMemory, _args: HandlerArgs) -> Result<u32, GuestTrap> {
        Err(GuestTrap {})
    }
}

struct BadVariantGuest;

impl FreshGuest for BadVariantGuest {
    fn fresh() -> Self {
        BadVariantGuest
    }
}

impl HttpGuest for BadVariantGuest {
    fn handler(&mut self, mem: &mut GuestMemory, args: HandlerArgs) -> Result<u32, GuestTrap> {
        free_request(mem, &args)?;
        mem.store_u32(RET, 200).map_err(|_| GuestTrap {})?;
        mem.store_u32(RET + 8, 7).map_err(|_| GuestTrap {})?;
        mem.store_u32(RET + 32, 0).map_err(|_| GuestTrap {})?;
        Ok(RET)
    }
}

struct BadStatusGuest;

impl FreshGuest for BadStatusGuest {
    fn fresh() -> Self {
        BadStatusGuest
    }
}

impl HttpGuest for BadStatusGuest {
    fn handler(&mut self, mem: &mut GuestMemory, args: HandlerArgs) -> Result<u32, GuestTrap> {
        free_request(mem, &args)?;
        write_response(mem, 70000, None, None)
    }
}

struct BadUtf8HeaderGuest;

impl FreshGuest for BadUtf8HeaderGuest {
    fn fresh() -> Self {
        BadUtf8HeaderGuest
    }
}

impl HttpGuest for BadUtf8HeaderGuest {
    fn handler(&mut self, mem: &mut GuestMemory, args: HandlerArgs) -> Result<u32, GuestTrap> {
        free_request(mem, &args)?;
        let list = mem.allocate(8, 4).map_err(|_| GuestTrap {})?;
        let bad = vec![0xffu8, 0xfe, 0xfd];
        let p = mem.allocate(3, 1).map_err(|_| GuestTrap {})?;
        mem.write_bytes(p, &bad).map_err(|_| GuestTrap {})?;
        mem.store_u32(list, p).map_err(|_| GuestTrap {})?;
        mem.store_u32(list + 4, 3).map_err(|_| GuestTrap {})?;
        mem.store_u32(RET, 200).map_err(|_| GuestTrap {})?;
        mem.store_u32(RET + 8, 1).map_err(|_| GuestTrap {})?;
        mem.store_u32(RET + 16, list).map_err(|_| GuestTrap {})?;
        mem.store_u32(RET + 24, 1).map_err(|_| GuestTrap {})?;
        mem.store_u32(RET + 32, 0).map_err(|_| GuestTrap {})?;
        Ok(RET)
    }
}

struct HeaderReplyGuest;

impl FreshGuest for HeaderReplyGuest {
    fn fresh() -> Self {
        HeaderReplyGuest
    }
}

impl HttpGuest for HeaderReplyGuest {
    fn handler(&mut self, mem: &mut GuestMemory, args: HandlerArgs) -> Result<u32, GuestTrap> {
        free_request(mem, &args)?;
        write_response(mem, 200, Some(&["x-reply:yes", "x-count:2"]), None)
    }
}

fn plain_request(body: Option<Vec<u8>>) -> HostRequest {
    HostRequest {
        method: Method::Get,
        uri: "https://www.rust-lang.org/".to_string(),
        headers: vec![
            ("X-Custom-Foo".to_string(), "Bar".to_string()),
            ("X-Custom-Foo2".to_string(), "Bar2".to_string()),
        ],
        body,
    }
}

fn engine<G>() -> Engine<G> {
    Engine { inner: build_template(), guest: core::marker::PhantomData }
}

#[test]
fn test_rust_handler() {
    let exp_status = 200;
    let exp_body =
        "Nerva, Trajan, Hadrian, Pius, and Marcus Aurelius are the five best emperors. Don't @ me."
            .as_bytes()
            .to_vec();
    let e = engine::<RustHandlerGuest>();
    let res = e.execute(plain_request(None)).unwrap();
    assert_eq!(exp_status, res.status);
    assert_eq!(Some(exp_body), res.body);
}

#[test]
fn test_c_handler() {
    let exp_status = 418;
    let exp_body = "Octavian was a pretty good emperor".as_bytes().to_vec();
    let e = engine::<CHandlerGuest>();
    let res = e.execute(plain_request(None)).unwrap();
    assert_eq!(exp_status, res.status);
    assert_eq!(Some(exp_body), res.body);
}

#[test]
fn scenario_constant_ok_handler() {
    let e = engine::<OkGuest>();
    let res = e
        .execute(HostRequest {
            method: Method::Post,
            uri: "https://ignored.example/".to_string(),
            headers: vec![],
            body: Some(b"whatever input".to_vec()),
        })
        .unwrap();
    assert_eq!(res.status, 200);
    assert_eq!(res.body, Some(b"ok".to_vec()));
}

#[test]
fn scenario_teapot_handler() {
    let e = engine::<TeapotGuest>();
    let res = e.execute(plain_request(None)).unwrap();
    assert_eq!(res.status, 418);
    assert!(res.headers.is_empty());
    assert_eq!(res.body, Some(b"teapot".to_vec()));
}

#[test]
fn body_round_trip_through_echo_guest() {
    let e = engine::<EchoGuest>();
    let payload: Vec<u8> = (0u16..300).map(|x| (x % 251) as u8).collect();
    let res = e.execute(plain_request(Some(payload.clone()))).unwrap();
    assert_eq!(res.status, 200);
    assert_eq!(res.body, Some(payload));
}

#[test]
fn response_headers_are_decoded_in_order() {
    let e = engine::<HeaderReplyGuest>();
    let res = e.execute(plain_request(None)).unwrap();
    assert_eq!(
        res.headers,
        vec![
            ("x-reply".to_string(), "yes".to_string()),
            ("x-count".to_string(), "2".to_string()),
        ]
    );
}

#[test]
fn guest_trap_fails_only_this_invocation() {
    let e = engine::<TrappingGuest>();
    assert_eq!(e.execute(plain_request(None)).err(), Some(EngineError::GuestTrap));
}

#[test]
fn unknown_discriminant_is_invalid_variant() {
    let e = engine::<BadVariantGuest>();
    assert_eq!(e.execute(plain_request(None)).err(), Some(EngineError::InvalidVariant));
}

#[test]
fn status_outside_range_is_bad_int() {
    let e = engine::<BadStatusGuest>();
    assert_eq!(e.execute(plain_request(None)).err(), Some(EngineError::BadInt));
}

#[test]
fn invalid_utf8_header_is_boundary_error() {
    let e = engine::<BadUtf8HeaderGuest>();
    assert_eq!(e.execute(plain_request(None)).err(), Some(EngineError::InvalidUtf8));
}

#[test]
fn control_header_is_rejected_before_the_guest_runs() {
    let e = engine::<OkGuest>();
    let mut req = plain_request(None);
    req.headers.push(("X-Evil".to_string(), "bad\u{0}byte".to_string()));
    assert_eq!(e.execute(req).err(), Some(EngineError::InvalidHeaderValue));
}

#[test]
fn missing_export_fails_instantiation() {
    let cfg = glass::Config::new(vec![], vec![], None);
    let mut b = WasiExecutionContextBuilder::new(&cfg).unwrap();
    b.add_all().unwrap();
    let module = ModuleInfo {
        imports: Vec::new(),
        exports: vec![("memory".to_string(), ExportSig::Memory)],
        memory_size: 65536,
    };
    let t = b.build::<DeislabsHttpV01Data>("entry.wasm".to_string(), module).unwrap();
    let e: Engine<OkGuest> = Engine { inner: t, guest: core::marker::PhantomData };
    assert_eq!(e.execute(plain_request(None)).err(), Some(EngineError::MissingExport));
}

#[test]
fn wrongly_shaped_export_fails_instantiation() {
    let cfg = glass::Config::new(vec![], vec![], None);
    let mut b = WasiExecutionContextBuilder::new(&cfg).unwrap();
    b.add_all().unwrap();
    let mut exports = http_exports();
    exports[2] = ("handler".to_string(), ExportSig::Func(2, 1));
    let module = ModuleInfo { imports: Vec::new(), exports, memory_size: 65536 };
    let t = b.build::<DeislabsHttpV01Data>("entry.wasm".to_string(), module).unwrap();
    let e: Engine<OkGuest> = Engine { inner: t, guest: core::marker::PhantomData };
    assert_eq!(e.execute(plain_request(None)).err(), Some(EngineError::MissingExport));
}

#[test]
fn unresolved_import_is_build_fatal() {
    let cfg = glass::Config::new(vec![], vec![], None);
    let b = WasiExecutionContextBuilder::new(&cfg).unwrap();
    let module = ModuleInfo {
        imports: vec!["wasi_snapshot_preview1".to_string()],
        exports: http_exports(),
        memory_size: 65536,
    };
    let r = b.build::<DeislabsHttpV01Data>("entry.wasm".to_string(), module);
    assert!(r.is_err());
    assert_eq!(r.err(), Some(EngineError::MissingImport));
}

struct AccentGuest;

impl FreshGuest for AccentGuest {
    fn fresh() -> Self {
        AccentGuest
    }
}

impl HttpGuest for AccentGuest {
    fn handler(&mut self, mem: &mut GuestMemory, args: HandlerArgs) -> Result<u32, GuestTrap> {
        free_request(mem, &args)?;
        write_response(
            mem,
            200,
            Some(&["x-greeting:h\u{e9}llo \u{2713}"]),
            Some("r\u{e9}ponse".as_bytes()),
        )
    }
}

#[test]
fn multi_byte_strings_survive_the_boundary() {
    let e = engine::<AccentGuest>();
    let res = e.execute(plain_request(None)).unwrap();
    assert_eq!(
        res.headers,
        vec![("x-greeting".to_string(), "h\u{e9}llo \u{2713}".to_string())]
    );
    assert_eq!(res.body, Some("r\u{e9}ponse".as_bytes().to_vec()));
}

#[test]
fn repeated_invocations_leak_no_guest_allocation() {
    let template = build_template();
    let iface = DeislabsHttpV01::new(&template.module.exports).unwrap();
    let mut guest = EchoGuest;
    let mut n = 0usize;
    while n < 10_000 {
        let mut mem = GuestMemory::new(4096);
        let req = HttpRequest {
            method: Method::Get,
            uri: "https://e/".to_string(),
            headers: vec!["x-a:1".to_string()],
            params: None,
            body: Some(vec![1u8, 2, 3, 4]),
        };
        let resp = iface.handler(&mut guest, &mut mem, &req).unwrap();
        assert_eq!(resp.status, 200);
        assert_eq!(resp.body, Some(vec![1u8, 2, 3, 4]));
        assert_eq!(mem.live_count(), 0);
        n += 1;
    }
}
