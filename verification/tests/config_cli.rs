use glass::build_tools::shell_command_line;
use glass::cli::HttpCmd;
use glass::cli::Opt;
use glass::cli::PingCmd;
use glass::cli::SubCommand;
use glass::compute_preopen_dirs;
use glass::get_os_process;
use glass::identity;
use glass::parse_env_var;
use glass::parse_map_dirs;
use glass::Config;
use glass::EngineError;

#[test]
fn parse_env_var_splits_at_first_equals() {
    assert_eq!(parse_env_var("KEY=value").unwrap(), ("KEY".to_string(), "value".to_string()));
    assert_eq!(parse_env_var("A=b=c").unwrap(), ("A".to_string(), "b=c".to_string()));
    assert_eq!(parse_env_var("A=").unwrap(), ("A".to_string(), "".to_string()));
    assert_eq!(parse_env_var("novalue"), Err(EngineError::EnvVarSyntax));
}

#[test]
fn parse_map_dirs_needs_exactly_one_separator() {
    assert_eq!(parse_map_dirs("guest::host").unwrap(), ("guest".to_string(), "host".to_string()));
    assert_eq!(parse_map_dirs("a:::b").unwrap(), ("a".to_string(), ":b".to_string()));
    assert_eq!(parse_map_dirs("nosep"), Err(EngineError::MapDirSyntax));
    assert_eq!(parse_map_dirs("a::b::c"), Err(EngineError::MapDirSyntax));
}

#[test]
fn compute_preopen_dirs_keeps_order() {
    let dirs = vec!["/tmp/a".to_string()];
    let maps = vec![("guest".to_string(), "/tmp/b".to_string())];
    let r = compute_preopen_dirs(dirs, maps).unwrap();
    assert_eq!(
        r,
        vec![
            ("/tmp/a".to_string(), "/tmp/a".to_string()),
            ("guest".to_string(), "/tmp/b".to_string()),
        ]
    );
}

#[test]
fn config_new_enables_engine_features() {
    let c = Config::new(vec![], vec![], None);
    assert!(c.multi_memory);
    assert!(c.module_linking);
    let d = c.duplicate();
    assert!(d.multi_memory && d.module_linking);
}

#[test]
fn opt_to_config_combines_grants() {
    let opt = Opt {
        vars: vec![],
        dirs: vec!["/data".to_string()],
        map_dirs: vec![("g".to_string(), "/h".to_string())],
        allowed_hosts: None,
        module: "entry.wasm".to_string(),
        cmd: SubCommand::Http(HttpCmd {
            address: "127.0.0.1:3000".to_string(),
            interface: "deislabs_http_v01".to_string(),
        }),
    };
    let vars = vec![("K".to_string(), "V".to_string())];
    let c = opt.to_config(vars, Some(vec!["example.com".to_string()])).unwrap();
    assert_eq!(c.preopen_dirs.len(), 2);
    assert_eq!(c.preopen_dirs[0], ("/data".to_string(), "/data".to_string()));
    assert_eq!(c.preopen_dirs[1], ("g".to_string(), "/h".to_string()));
    assert_eq!(c.vars[0].0, "K");
    assert_eq!(c.allowed_http_hosts, Some(vec!["example.com".to_string()]));
    match opt.cmd {
        SubCommand::Http(h) => assert_eq!(h.address, "127.0.0.1:3000"),
        SubCommand::Ping(_) => panic!("wrong subcommand"),
    }
    let _ping = PingCmd { interval_seconds: 2 };
}

#[test]
fn shell_helpers() {
    assert_eq!(get_os_process(), "/bin/bash");
    let args = vec!["cargo".to_string(), "build".to_string(), "--release".to_string()];
    assert_eq!(shell_command_line(&args), "cargo build --release");
    assert_eq!(shell_command_line(&Vec::new()), "");
    assert_eq!(identity::<u32>(7), Ok(7));
}
