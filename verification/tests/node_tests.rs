use webman::node::{Host, Name, Node, Nodes};

#[test]
fn api_url() {
    let node1 = Node {
        host: Host::Ipv4(127, 0, 0, 1),
        tls: false,
        port: Some(7777),
    };
    assert_eq!(node1.api_url(""), "http://127.0.0.1:7777/api");

    let node2 = Node {
        host: Host::Domain("www.myserver.com".to_owned()),
        tls: true,
        port: None,
    };
    assert_eq!(node2.api_url(""), "https://www.myserver.com/api");
}

#[test]
fn api_url_end_point() {
    let node = Node {
        host: Host::Domain("example.org".to_owned()),
        tls: false,
        port: Some(80),
    };
    assert_eq!(
        node.api_url("/provider/info"),
        "http://example.org:80/api/provider/info"
    );
}

#[test]
fn nodes_lookup() {
    let a = Node {
        host: Host::Domain("a.example".to_owned()),
        tls: true,
        port: None,
    };
    let nodes = Nodes {
        entries: vec![("a".to_string(), a.clone())],
    };
    assert_eq!(nodes.get("a"), Some(&a));
    assert_eq!(nodes.get("b"), None);
    assert_eq!(Name::new("a").as_str(), "a");
}
