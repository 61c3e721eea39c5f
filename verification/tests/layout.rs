use trillium_bench::layout::{
    production_http_config, proxy_runtimes, server_listeners, server_routes, tuned_http_config,
    upstream_alpn_protocols, Endpoint, HttpTuning, Listener, Method, ProxyRuntime,
    PROXY_STATIC_PATH, PROXY_VIA_PSEUDONYM,
};

#[test]
fn listeners_with_tls() {
    assert_eq!(
        server_listeners(true, 8443),
        vec![
            Listener::Plain { port: 8080 },
            Listener::Tls { port: 8081, h2: false },
            Listener::Tls { port: 8443, h2: true },
            Listener::Quic { port: 8443 },
        ]
    );
}

#[test]
fn quic_pairs_with_the_h2_tls_port() {
    let l = server_listeners(true, 9443);
    assert_eq!(l[2], Listener::Tls { port: 9443, h2: true });
    assert_eq!(l[3], Listener::Quic { port: 9443 });
}

#[test]
fn listeners_without_tls() {
    assert_eq!(server_listeners(false, 8443), vec![Listener::Plain { port: 8080 }]);
}

#[test]
fn proxy_runtimes_with_and_without_h3() {
    assert_eq!(
        proxy_runtimes(3, true, 2),
        vec![
            ProxyRuntime::Worker { index: 0 },
            ProxyRuntime::Worker { index: 1 },
            ProxyRuntime::Worker { index: 2 },
            ProxyRuntime::QuicMultiThread { threads: 2 },
        ]
    );
    assert_eq!(proxy_runtimes(2, false, 8), vec![ProxyRuntime::Worker { index: 0 }, ProxyRuntime::Worker { index: 1 }]);
    assert!(proxy_runtimes(0, false, 2).is_empty());
}

#[test]
fn alpn_offers_h2_then_http11() {
    assert_eq!(upstream_alpn_protocols(), vec![b"h2".to_vec(), b"http/1.1".to_vec()]);
}

#[test]
fn tuned_http_config_values() {
    assert_eq!(
        tuned_http_config(),
        HttpTuning {
            response_buffer_len: Some(8192),
            received_body_max_len: Some(32 * 1024 * 1024),
            received_body_initial_len: Some(64 * 1024),
            received_body_max_preallocate: Some(32 * 1024 * 1024),
            copy_loops_per_yield: Some(64),
            h2_max_frame_size: Some(65536),
            request_buffer_initial_len: Some(256),
        }
    );
}

#[test]
fn production_http_config_values() {
    let c = production_http_config();
    assert_eq!(c.received_body_max_len, Some(32 * 1024 * 1024));
    assert_eq!(c.response_buffer_len, None);
    assert_eq!(c.h2_max_frame_size, None);
}

#[test]
fn route_table() {
    let routes = server_routes();
    let table: Vec<(Vec<Method>, &str, Endpoint)> =
        routes.iter().map(|r| (r.methods.clone(), r.path, r.endpoint)).collect();
    assert_eq!(
        table,
        vec![
            (vec![Method::Get], "/pipeline", Endpoint::Pipeline),
            (vec![Method::Get, Method::Post], "/baseline11", Endpoint::Baseline11),
            (vec![Method::Get], "/baseline2", Endpoint::Baseline2),
            (vec![Method::Get], "/json/:count", Endpoint::Json),
            (vec![Method::Post], "/upload", Endpoint::Upload),
            (vec![Method::Get], "/static/*", Endpoint::StaticFiles),
            (vec![Method::Get], "/async-db", Endpoint::AsyncDb),
            (vec![Method::Get], "/fortunes", Endpoint::Fortunes),
            (vec![Method::Get], "/crud/items", Endpoint::CrudList),
            (vec![Method::Post], "/crud/items", Endpoint::CrudCreate),
            (vec![Method::Get], "/crud/items/:id", Endpoint::CrudRead),
            (vec![Method::Put], "/crud/items/:id", Endpoint::CrudUpdate),
            (vec![Method::Get], "/ws", Endpoint::WebSocketEcho),
        ]
    );
}

#[test]
fn proxy_constants() {
    assert_eq!(PROXY_STATIC_PATH, "/static/*");
    assert_eq!(PROXY_VIA_PSEUDONYM, "trillium-proxy");
}
