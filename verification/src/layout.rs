//! The shape of the servers: which listeners they bind, how the proxy spreads its runtimes,
//! the HTTP tuning they run with, and the routes they serve.

use vstd::prelude::*;

verus! {

/// A listening socket and the protocols it speaks.
#[derive(Clone, Copy, Debug, PartialEq, Eq, Structural)]
pub enum Listener {
    /// Cleartext HTTP/1.1, which also takes HTTP/2 with prior knowledge and WebSocket upgrades.
    Plain { port: u16 },
    /// TLS; `h2` tells whether ALPN offers HTTP/2 beside HTTP/1.1.
    Tls { port: u16, h2: bool },
    /// QUIC carrying HTTP/3.
    Quic { port: u16 },
}

/// The cleartext port.
pub const PLAIN_PORT: u16 = 8080;

/// The TLS port that offers HTTP/1.1 only.
pub const TLS_H1_PORT: u16 = 8081;

/// The listeners of a server: cleartext on 8080 always; with a certificate and key also TLS
/// without HTTP/2 on 8081, TLS with HTTP/2 on `tls_port`, and QUIC on that same port, so that
/// HTTP/3 is advertised beside the TLS listener it pairs with.
pub fn server_listeners(tls_material: bool, tls_port: u16) -> (listeners: Vec<Listener>)
    ensures
        listeners@ == (if tls_material {
            seq![
                Listener::Plain { port: 8080 },
                Listener::Tls { port: 8081, h2: false },
                Listener::Tls { port: tls_port, h2: true },
                Listener::Quic { port: tls_port },
            ]
        } else {
            seq![Listener::Plain { port: 8080 }]
        }),
{
    let mut listeners: Vec<Listener> = Vec::new();
    listeners.push(Listener::Plain { port: PLAIN_PORT });
    if tls_material {
        listeners.push(Listener::Tls { port: TLS_H1_PORT, h2: false });
        listeners.push(Listener::Tls { port: tls_port, h2: true });
        listeners.push(Listener::Quic { port: tls_port });
    }
    listeners
}

/// A runtime of the proxy, each on an OS thread of its own.
#[derive(Clone, Copy, Debug, PartialEq, Eq, Structural)]
pub enum ProxyRuntime {
    /// A single-threaded runtime serving TCP (HTTP/1.1 and HTTP/2) on the shared reuseport port.
    Worker { index: usize },
    /// A multi-threaded runtime with `threads` threads that joins the TCP reuseport pool and owns
    /// the QUIC endpoint.
    QuicMultiThread { threads: usize },
}

/// The runtimes the proxy starts: one worker for each index below `n_workers`, in order, and,
/// when HTTP/3 is on, one QUIC runtime with `quic_threads` threads after them.
pub fn proxy_runtimes(n_workers: usize, enable_h3: bool, quic_threads: usize) -> (plan: Vec<
    ProxyRuntime,
>)
    ensures
        plan.len() == n_workers + (if enable_h3 {
            1int
        } else {
            0int
        }),
        forall|i: int| 0 <= i < n_workers ==> #[trigger] plan@[i] == (ProxyRuntime::Worker { index: i as usize }),
        enable_h3 ==> plan@[n_workers as int] == (ProxyRuntime::QuicMultiThread { threads: quic_threads }),
{
    let mut plan: Vec<ProxyRuntime> = Vec::new();
    let mut index: usize = 0;
    while index < n_workers
        invariant
            index <= n_workers,
            plan.len() == index,
            forall|i: int| 0 <= i < index ==> #[trigger] plan@[i] == (ProxyRuntime::Worker { index: i as usize }),
        decreases n_workers - index,
    {
        plan.push(ProxyRuntime::Worker { index });
        index = index + 1;
    }
    if enable_h3 {
        plan.push(ProxyRuntime::QuicMultiThread { threads: quic_threads });
    }
    plan
}

/// The protocols the proxy offers its upstream through ALPN: `h2`, then `http/1.1`.
pub fn upstream_alpn_protocols() -> (protocols: Vec<Vec<u8>>)
    ensures
        protocols.len() == 2,
        protocols@[0]@ == seq![104u8, 50u8],
        protocols@[1]@ == seq![104u8, 116u8, 116u8, 112u8, 47u8, 49u8, 46u8, 49u8],
{
    let mut protocols: Vec<Vec<u8>> = Vec::new();
    protocols.push(vec![104u8, 50u8]);
    protocols.push(vec![104u8, 116u8, 116u8, 112u8, 47u8, 49u8, 46u8, 49u8]);
    protocols
}

/// The knobs of trillium's HTTP configuration that a server sets; `None` keeps trillium's
/// default.
#[derive(Clone, Copy, Debug, PartialEq, Eq, Structural)]
pub struct HttpTuning {
    pub response_buffer_len: Option<usize>,
    pub received_body_max_len: Option<u64>,
    pub received_body_initial_len: Option<usize>,
    pub received_body_max_preallocate: Option<usize>,
    pub copy_loops_per_yield: Option<usize>,
    pub h2_max_frame_size: Option<u32>,
    pub request_buffer_initial_len: Option<usize>,
}

/// The tuning of the tuned server: an 8 KiB response buffer, request bodies up to 32 MiB read
/// into a 64 KiB first buffer and preallocated up to 32 MiB, 64 copy loops per yield, HTTP/2
/// frames up to 64 KiB, and a 256-byte first request buffer.
pub fn tuned_http_config() -> (tuning: HttpTuning)
    ensures
        tuning == (HttpTuning {
            response_buffer_len: Some(8192),
            received_body_max_len: Some(33554432),
            received_body_initial_len: Some(65536),
            received_body_max_preallocate: Some(33554432),
            copy_loops_per_yield: Some(64),
            h2_max_frame_size: Some(65536),
            request_buffer_initial_len: Some(256),
        }),
{
    HttpTuning {
        response_buffer_len: Some(8192),
        received_body_max_len: Some(32 * 1024 * 1024),
        received_body_initial_len: Some(64 * 1024),
        received_body_max_preallocate: Some(32 * 1024 * 1024),
        copy_loops_per_yield: Some(64),
        h2_max_frame_size: Some(65536),
        request_buffer_initial_len: Some(256),
    }
}

/// The tuning of the production server: trillium's defaults, except that request bodies may be
/// up to 32 MiB.
pub fn production_http_config() -> (tuning: HttpTuning)
    ensures
        tuning == (HttpTuning {
            response_buffer_len: None,
            received_body_max_len: Some(33554432),
            received_body_initial_len: None,
            received_body_max_preallocate: None,
            copy_loops_per_yield: None,
            h2_max_frame_size: None,
            request_buffer_initial_len: None,
        }),
{
    HttpTuning {
        response_buffer_len: None,
        received_body_max_len: Some(32 * 1024 * 1024),
        received_body_initial_len: None,
        received_body_max_preallocate: None,
        copy_loops_per_yield: None,
        h2_max_frame_size: None,
        request_buffer_initial_len: None,
    }
}

/// An HTTP method a route answers.
#[derive(Clone, Copy, Debug, PartialEq, Eq, Structural)]
pub enum Method {
    Get,
    Post,
    Put,
}

/// What a route serves.
#[derive(Clone, Copy, Debug, PartialEq, Eq, Structural)]
pub enum Endpoint {
    Pipeline,
    Baseline11,
    Baseline2,
    Json,
    Upload,
    StaticFiles,
    AsyncDb,
    Fortunes,
    CrudList,
    CrudCreate,
    CrudRead,
    CrudUpdate,
    WebSocketEcho,
}

/// A route of the server's router: the methods it answers, its path pattern (`:name` captures a
/// segment, `*` the rest of the path), and what it serves.
pub struct Route {
    pub methods: Vec<Method>,
    pub path: &'static str,
    pub endpoint: Endpoint,
}

/// `r` answers exactly `methods` on `path` with `endpoint`.
pub open spec fn is_route(r: Route, methods: Seq<Method>, path: Seq<char>, endpoint: Endpoint) -> bool {
    r.methods@ == methods && r.path@ == path && r.endpoint == endpoint
}

/// The routes of both servers, in the order the router tries them.
pub fn server_routes() -> (routes: Vec<Route>)
    ensures
        routes.len() == 13,
        is_route(routes@[0], seq![Method::Get], "/pipeline"@, Endpoint::Pipeline),
        is_route(routes@[1], seq![Method::Get, Method::Post], "/baseline11"@, Endpoint::Baseline11),
        is_route(routes@[2], seq![Method::Get], "/baseline2"@, Endpoint::Baseline2),
        is_route(routes@[3], seq![Method::Get], "/json/:count"@, Endpoint::Json),
        is_route(routes@[4], seq![Method::Post], "/upload"@, Endpoint::Upload),
        is_route(routes@[5], seq![Method::Get], "/static/*"@, Endpoint::StaticFiles),
        is_route(routes@[6], seq![Method::Get], "/async-db"@, Endpoint::AsyncDb),
        is_route(routes@[7], seq![Method::Get], "/fortunes"@, Endpoint::Fortunes),
        is_route(routes@[8], seq![Method::Get], "/crud/items"@, Endpoint::CrudList),
        is_route(routes@[9], seq![Method::Post], "/crud/items"@, Endpoint::CrudCreate),
        is_route(routes@[10], seq![Method::Get], "/crud/items/:id"@, Endpoint::CrudRead),
        is_route(routes@[11], seq![Method::Put], "/crud/items/:id"@, Endpoint::CrudUpdate),
        is_route(routes@[12], seq![Method::Get], "/ws"@, Endpoint::WebSocketEcho),
{
    let mut routes: Vec<Route> = Vec::new();
    routes.push(Route { methods: vec![Method::Get], path: "/pipeline", endpoint: Endpoint::Pipeline });
    routes.push(Route { methods: vec![Method::Get, Method::Post], path: "/baseline11", endpoint: Endpoint::Baseline11 });
    routes.push(Route { methods: vec![Method::Get], path: "/baseline2", endpoint: Endpoint::Baseline2 });
    routes.push(Route { methods: vec![Method::Get], path: "/json/:count", endpoint: Endpoint::Json });
    routes.push(Route { methods: vec![Method::Post], path: "/upload", endpoint: Endpoint::Upload });
    routes.push(Route { methods: vec![Method::Get], path: "/static/*", endpoint: Endpoint::StaticFiles });
    routes.push(Route { methods: vec![Method::Get], path: "/async-db", endpoint: Endpoint::AsyncDb });
    routes.push(Route { methods: vec![Method::Get], path: "/fortunes", endpoint: Endpoint::Fortunes });
    routes.push(Route { methods: vec![Method::Get], path: "/crud/items", endpoint: Endpoint::CrudList });
    routes.push(Route { methods: vec![Method::Post], path: "/crud/items", endpoint: Endpoint::CrudCreate });
    routes.push(Route { methods: vec![Method::Get], path: "/crud/items/:id", endpoint: Endpoint::CrudRead });
    routes.push(Route { methods: vec![Method::Put], path: "/crud/items/:id", endpoint: Endpoint::CrudUpdate });
    routes.push(Route { methods: vec![Method::Get], path: "/ws", endpoint: Endpoint::WebSocketEcho });
    proof {
        assert(routes@[0].methods@ =~= seq![Method::Get]);
        assert(routes@[1].methods@ =~= seq![Method::Get, Method::Post]);
        assert(routes@[2].methods@ =~= seq![Method::Get]);
        assert(routes@[3].methods@ =~= seq![Method::Get]);
        assert(routes@[4].methods@ =~= seq![Method::Post]);
        assert(routes@[5].methods@ =~= seq![Method::Get]);
        assert(routes@[6].methods@ =~= seq![Method::Get]);
        assert(routes@[7].methods@ =~= seq![Method::Get]);
        assert(routes@[8].methods@ =~= seq![Method::Get]);
        assert(routes@[9].methods@ =~= seq![Method::Post]);
        assert(routes@[10].methods@ =~= seq![Method::Get]);
        assert(routes@[11].methods@ =~= seq![Method::Put]);
        assert(routes@[12].methods@ =~= seq![Method::Get]);
    }
    routes
}

/// The path under which the proxy serves static files itself; everything else goes upstream.
pub const PROXY_STATIC_PATH: &'static str = "/static/*";

/// The pseudonym the proxy names itself by in the `Via` header.
pub const PROXY_VIA_PSEUDONYM: &'static str = "trillium-proxy";

} // verus!
