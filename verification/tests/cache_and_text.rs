use mcphub::cache::{save_cache, SchemaCache, ToolDef};
use mcphub::text::{u128_to_hex, u64_to_dec, u64_to_hex};

fn tool(json: &str) -> ToolDef {
    ToolDef {
        json: json.to_string(),
    }
}

#[test]
fn decimal_rendering() {
    assert_eq!(u64_to_dec(0), "0");
    assert_eq!(u64_to_dec(7), "7");
    assert_eq!(u64_to_dec(12345), "12345");
    assert_eq!(u64_to_dec(u64::MAX), "18446744073709551615");
}

#[test]
fn hex_rendering() {
    assert_eq!(u64_to_hex(0), "0");
    assert_eq!(u64_to_hex(255), "ff");
    assert_eq!(u64_to_hex(0xdead), "dead");
    assert_eq!(u128_to_hex(0x1234567890abcdef1234567890abcdef), "1234567890abcdef1234567890abcdef");
}

#[test]
fn empty_cache_is_cold_start() {
    let c = SchemaCache::empty("1.0.0".to_string());
    assert_eq!(c.version(), "1.0.0");
    assert_eq!(c.server_count(), 0);
    assert!(!c.has_server("alpha"));
    assert!(c.get_error("alpha").is_none());
}

#[test]
fn repair_installs_tools_and_clears_error() {
    let mut c = SchemaCache::empty("1.0.0".to_string());
    c.set_server_error("alpha", "spawn failed");
    assert_eq!(c.get_error("alpha"), Some("spawn failed".to_string()));
    assert!(!c.has_server("alpha"));
    c.repair_server_cache("alpha", vec![tool("{\"name\":\"t1\"}")]);
    assert!(c.has_server("alpha"));
    assert!(c.get_error("alpha").is_none());
    assert_eq!(c.server_count(), 1);
}

#[test]
fn error_clears_stale_tools() {
    let mut c = SchemaCache::empty("1.0.0".to_string());
    c.repair_server_cache("alpha", vec![tool("{\"name\":\"t1\"}"), tool("{\"name\":\"t2\"}")]);
    c.repair_server_cache("beta", vec![tool("{\"name\":\"t3\"}")]);
    assert_eq!(c.server_count(), 2);
    c.set_server_error("alpha", "died");
    assert!(!c.has_server("alpha"));
    assert!(c.has_server("beta"));
    assert_eq!(c.get_error("alpha"), Some("died".to_string()));
    assert_eq!(c.server_count(), 1);
}

#[test]
fn repair_replaces_existing_list() {
    let mut c = SchemaCache::empty("1.0.0".to_string());
    c.repair_server_cache("alpha", vec![tool("{\"v\":1}")]);
    c.repair_server_cache("alpha", vec![tool("{\"v\":2}"), tool("{\"v\":3}")]);
    assert_eq!(c.server_count(), 1);
    assert!(c.has_server("alpha"));
}

#[test]
fn overwriting_error_keeps_one_entry() {
    let mut c = SchemaCache::empty("1.0.0".to_string());
    c.set_server_error("alpha", "first");
    c.set_server_error("alpha", "second");
    assert_eq!(c.get_error("alpha"), Some("second".to_string()));
}

#[test]
fn save_cache_builds_clean_state() {
    let servers = vec![
        ("alpha".to_string(), vec![tool("{\"a\":1}")]),
        ("beta".to_string(), vec![]),
    ];
    let c = save_cache("2.1.0".to_string(), servers);
    assert_eq!(c.version(), "2.1.0");
    assert_eq!(c.server_count(), 2);
    assert!(c.has_server("alpha"));
    assert!(c.has_server("beta"));
    assert!(!c.has_server("gamma"));
    assert!(c.get_error("alpha").is_none());
}
