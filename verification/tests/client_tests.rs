use backend::home_client::{websocket_url, Args, ArgsExit, Commands};

fn args(v: &[&str]) -> Vec<String> {
    v.iter().map(|s| s.to_string()).collect()
}

#[test]
fn no_arguments() {
    let a = Args::new(&args(&["home-client"])).unwrap();
    assert_eq!(a.server_url, "http://localhost:3000");
    assert!(a.command.is_none());
}

#[test]
fn server_url_and_list() {
    let a = Args::new(&args(&["hc", "-s", "http://10.0.0.2:3000", "list"])).unwrap();
    assert_eq!(a.server_url, "http://10.0.0.2:3000");
    assert!(matches!(a.command, Some(Commands::List)));
    let a = Args::new(&args(&["hc", "status", "--server-url", "http://h"])).unwrap();
    assert_eq!(a.server_url, "http://h");
    assert!(matches!(a.command, Some(Commands::Status)));
}

#[test]
fn wol_with_positional_words() {
    let a = Args::new(&args(&["hc", "wol", "AA:BB:CC:DD:EE:FF"])).unwrap();
    match a.command {
        Some(Commands::Wol { mac, broadcast }) => {
            assert_eq!(mac, "AA:BB:CC:DD:EE:FF");
            assert_eq!(broadcast, "255.255.255.255");
        }
        _ => panic!("expected wol"),
    }
    let a = Args::new(&args(&["hc", "wol", "AA", "192.168.1.255", "ignored"])).unwrap();
    match a.command {
        Some(Commands::Wol { mac, broadcast }) => {
            assert_eq!(mac, "AA");
            assert_eq!(broadcast, "192.168.1.255");
        }
        _ => panic!("expected wol"),
    }
}

#[test]
fn wol_with_options() {
    let a = Args::new(&args(&["hc", "wol", "--mac", "11:22", "-b", "10.0.0.255", "list"])).unwrap();
    assert!(matches!(a.command, Some(Commands::List)));
    let a = Args::new(&args(&["hc", "wol", "-m", "11:22", "--broadcast", "10.0.0.255"])).unwrap();
    match a.command {
        Some(Commands::Wol { mac, broadcast }) => {
            assert_eq!(mac, "11:22");
            assert_eq!(broadcast, "10.0.0.255");
        }
        _ => panic!("expected wol"),
    }
}

#[test]
fn wol_needs_a_mac() {
    assert_eq!(
        Args::new(&args(&["hc", "wol"])).unwrap_err(),
        ArgsExit::Invalid("Error: wol command requires --mac argument".to_string())
    );
    assert_eq!(
        Args::new(&args(&["hc", "wol", "-x"])).unwrap_err(),
        ArgsExit::Invalid("Error: wol command requires --mac argument".to_string())
    );
    assert_eq!(
        Args::new(&args(&["hc", "wol", "AA", "-x"])).unwrap_err(),
        ArgsExit::Invalid("Unknown argument: -x".to_string())
    );
}

#[test]
fn server_url_needs_a_value() {
    assert_eq!(
        Args::new(&args(&["hc", "--server-url"])).unwrap_err(),
        ArgsExit::Invalid("Error: --server-url requires a value".to_string())
    );
}

#[test]
fn unknown_argument() {
    assert_eq!(
        Args::new(&args(&["hc", "bogus"])).unwrap_err(),
        ArgsExit::Invalid("Unknown argument: bogus".to_string())
    );
}

#[test]
fn help() {
    assert_eq!(Args::new(&args(&["hc", "-h", "bogus"])).unwrap_err(), ArgsExit::Help);
    assert_eq!(Args::new(&args(&["hc", "list", "--help"])).unwrap_err(), ArgsExit::Help);
}

#[test]
fn stalling_command_lines() {
    assert!(Args::stalls(&args(&["hc", "wol", "--mac"])));
    assert!(Args::stalls(&args(&["hc", "wol", "AA", "-b"])));
    assert!(!Args::stalls(&args(&["hc", "wol", "AA", "-b", "x"])));
    assert!(!Args::stalls(&args(&["hc", "--mac"])));
}

#[test]
fn websocket_addresses() {
    assert_eq!(websocket_url("http://localhost:3000"), "ws://localhost:3000/ws");
    assert_eq!(websocket_url("https://home.example"), "wss://home.example/ws");
    assert_eq!(websocket_url("localhost:3000"), "localhost:3000/ws");
}
