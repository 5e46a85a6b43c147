use ld_notion_backend::config::{parse_port, Config};

fn config(port: u16, db: &str, root: &str) -> Config {
    Config { host: "127.0.0.1".to_string(), port, database_path: db.to_string(), storage_root: root.to_string() }
}

#[test]
fn bind_address_joins_host_and_port() {
    assert_eq!(config(3000, "d", "s").bind_address(), "127.0.0.1:3000");
    assert_eq!(config(7, "d", "s").bind_address(), "127.0.0.1:7");
    assert_eq!(config(65535, "d", "s").bind_address(), "127.0.0.1:65535");
    assert_eq!(config(10, "d", "s").bind_address(), "127.0.0.1:10");
}

#[test]
fn validate_accepts_a_complete_config() {
    assert_eq!(config(3000, "data/ld-notion.db", "data/storage").validate(), Ok(()));
}

#[test]
fn validate_reports_the_first_problem() {
    assert_eq!(config(0, "", "").validate(), Err("端口号不能为 0".to_string()));
    assert_eq!(config(1, "", "").validate(), Err("数据库路径不能为空".to_string()));
    assert_eq!(config(1, "db", "").validate(), Err("存储根目录不能为空".to_string()));
}

#[test]
fn settings_defaults() {
    let c = Config::from_settings(None, None, None, None);
    assert_eq!(c.host, "127.0.0.1");
    assert_eq!(c.port, 3000);
    assert_eq!(c.database_path, "data/ld-notion.db");
    assert_eq!(c.storage_root, "data/storage");
    let c = Config::from_settings(
        Some("0.0.0.0".to_string()),
        Some("8080".to_string()),
        Some("x.db".to_string()),
        Some("root".to_string()),
    );
    assert_eq!((c.host.as_str(), c.port, c.database_path.as_str(), c.storage_root.as_str()), ("0.0.0.0", 8080, "x.db", "root"));
}

#[test]
fn port_setting_read_as_std_reads_it() {
    for s in ["0", "80", "+443", "65535", "65536", "99999999999", "", "+", "-1", "-0", "8o", " 80", "0080", "++1", "１２"] {
        assert_eq!(parse_port(s), s.parse::<u16>().ok(), "{s:?}");
    }
    assert_eq!(Config::from_settings(None, Some("abc".to_string()), None, None).port, 3000);
    assert_eq!(Config::from_settings(None, Some("70000".to_string()), None, None).port, 3000);
}
