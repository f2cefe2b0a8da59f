use tynkerbase::docker_utils::parse_engine_status;
use tynkerbase::netwk_utils::{Node, ProjConfig};

#[test]
fn parse_name_rewrites_spaces_and_case() {
    let mut c = ProjConfig::default();
    c.proj_name = "My Web App".to_string();
    assert!(!c.parse_name());
    assert_eq!(c.proj_name, "my_web_app");
    assert!(c.parse_name());
    assert_eq!(c.proj_name, "my_web_app");
}

#[test]
fn parse_name_keeps_other_fields() {
    let mut c = ProjConfig::default();
    c.proj_name = "ALPHA".to_string();
    c.port_mapping.push([8080, 80]);
    c.ignore.push("*.log".to_string());
    assert!(!c.parse_name());
    assert_eq!(c.proj_name, "alpha");
    assert_eq!(c.port_mapping, vec![[8080, 80]]);
    assert_eq!(c.ignore, vec!["*.log".to_string()]);
}

#[test]
fn node_to_hashmap_holds_every_field() {
    let n = Node {
        node_id: "id-1".to_string(),
        name: "edge".to_string(),
        email: "a@b.c".to_string(),
        addr: "10.0.0.1".to_string(),
    };
    let m = n.to_hashmap();
    assert_eq!(m.len(), 4);
    assert_eq!(m["node_id"], "id-1");
    assert_eq!(m["name"], "edge");
    assert_eq!(m["email"], "a@b.c");
    assert_eq!(m["addr"], "10.0.0.1");
}

#[test]
fn engine_status_active_and_inactive() {
    let running = "docker.service - Docker\n     Loaded: loaded\n     Active: active (running) since Mon";
    let stopped = "docker.service\n     Active: inactive (dead)";
    assert_eq!(parse_engine_status(running), Some(true));
    assert_eq!(parse_engine_status(stopped), Some(false));
}

#[test]
fn engine_status_unreadable_reports() {
    assert_eq!(parse_engine_status(""), None);
    assert_eq!(parse_engine_status("Active: active"), None);
    assert_eq!(parse_engine_status("Active: failed (Result: exit-code)"), None);
    assert_eq!(parse_engine_status("no status here"), None);
}
